use sysrs::fstab::{Error, FsEntry};
use sysrs::loader::{empty_dep, empty_str, str_to_unitentrys};
use sysrs::mount::{mount_point_of_line, mount_point_to_unit_name, MountInfo};
use sysrs::mount_monitor::{mounted_units, MountMonitorStore};
use sysrs::service::{command_line, exit_state, Impl, Kind, StopPlan};
use sysrs::socket::{Awaited, RtState, SocketEvent};
use sysrs::state::{State, StateSet};
use sysrs::text::{
    entries_of, first_line_of, parse_u8, split_str, trim, words_of, IntErrorKind, Sep,
};
use sysrs::unit::{RtMsg, UnitDeps, UnitId, UnitImpl, UnitKind};

fn names(units: &[UnitId]) -> Vec<String> {
    units.iter().map(|u| u.name().to_string()).collect()
}

#[test]
fn split_keeps_empty_pieces() {
    assert_eq!(split_str("a,b", Sep::Char(',')), vec!["a", "b"]);
    assert_eq!(split_str("", Sep::Char(',')), vec![""]);
    assert_eq!(split_str(",", Sep::Char(',')), vec!["", ""]);
    assert_eq!(split_str("a,,b,", Sep::Char(',')), vec!["a", "", "b", ""]);
    let std: Vec<&str> = "x, y,,z ".split(',').collect();
    assert_eq!(split_str("x, y,,z ", Sep::Char(',')), std);
}

#[test]
fn words_are_the_pieces_that_are_not_empty() {
    assert_eq!(words_of("  sleep   10\t20 ", Sep::Space), vec!["sleep", "10", "20"]);
    assert_eq!(words_of("", Sep::Space), Vec::<String>::new());
    assert_eq!(words_of(" \n ", Sep::AsciiSpace), Vec::<String>::new());
    // A no-break space is white space, but not of ASCII.
    assert_eq!(words_of("a\u{a0}b", Sep::Space), vec!["a", "b"]);
    assert_eq!(words_of("a\u{a0}b", Sep::AsciiSpace), vec!["a\u{a0}b"]);
    // A vertical tab is white space, but not for ASCII.
    assert_eq!(words_of("a\u{b}b", Sep::Space), vec!["a", "b"]);
    assert_eq!(words_of("a\u{b}b", Sep::AsciiSpace), vec!["a\u{b}b"]);
    let line = "UUID=abc /  ext4\tdefaults 0 1";
    let std: Vec<&str> = line.split_ascii_whitespace().collect();
    assert_eq!(words_of(line, Sep::AsciiSpace), std);
}

#[test]
fn trim_takes_white_space_from_both_ends_only() {
    assert_eq!(trim("  a b \t\n"), "a b");
    assert_eq!(trim(""), "");
    assert_eq!(trim(" \u{3000}\u{2003} "), "");
    assert_eq!(trim("x"), "x");
    assert_eq!(trim("\u{85}é \u{a0}"), "é");
    for s in ["  a b \t\n", "", "   ", "a", " a", "a ", "\u{2028}a\u{205f}b\u{1680}"] {
        assert_eq!(trim(s), s.trim());
    }
}

#[test]
fn first_line_ends_at_the_first_line_feed() {
    assert_eq!(first_line_of("one\ntwo\nthree"), "one");
    assert_eq!(first_line_of("one"), "one");
    assert_eq!(first_line_of("\nnext"), "");
    assert_eq!(first_line_of(""), "");
    assert_eq!(first_line_of("a\r\nb"), "a\r");
}

#[test]
fn entries_are_trimmed_and_not_empty() {
    assert_eq!(entries_of(" a.service , b.service,, ", Sep::Char(',')), vec![
        "a.service",
        "b.service"
    ]);
    assert_eq!(entries_of("", Sep::Char(',')), Vec::<String>::new());
}

#[test]
fn numbers_below_256_are_read() {
    assert_eq!(parse_u8("0"), Ok(0));
    assert_eq!(parse_u8("7"), Ok(7));
    assert_eq!(parse_u8("+12"), Ok(12));
    assert_eq!(parse_u8("255"), Ok(255));
    assert_eq!(parse_u8("000255"), Ok(255));
}

#[test]
fn what_is_no_number_says_why() {
    assert_eq!(parse_u8(""), Err(IntErrorKind::Empty));
    assert_eq!(parse_u8("+"), Err(IntErrorKind::InvalidDigit));
    assert_eq!(parse_u8("-"), Err(IntErrorKind::InvalidDigit));
    assert_eq!(parse_u8("-1"), Err(IntErrorKind::InvalidDigit));
    assert_eq!(parse_u8("1 "), Err(IntErrorKind::InvalidDigit));
    assert_eq!(parse_u8("12a"), Err(IntErrorKind::InvalidDigit));
    assert_eq!(parse_u8("++1"), Err(IntErrorKind::InvalidDigit));
    assert_eq!(parse_u8("256"), Err(IntErrorKind::PosOverflow));
    assert_eq!(parse_u8("999x"), Err(IntErrorKind::PosOverflow));
    assert_eq!(parse_u8("25x9"), Err(IntErrorKind::InvalidDigit));
}

#[test]
fn numbers_are_read_as_the_standard_library_reads_them() {
    let mut texts: Vec<String> = (0..=300).map(|n| n.to_string()).collect();
    for t in ["", "+", "-", "+0", "+255", "+256", "00", "0256", "1e1", " 1", "٣", "2560", "25 "] {
        texts.push(t.to_string());
    }
    for t in texts {
        let ours = parse_u8(&t);
        match t.parse::<u8>() {
            Ok(n) => assert_eq!(ours, Ok(n), "{:?}", t),
            Err(e) => {
                let kind = match e.kind() {
                    std::num::IntErrorKind::Empty => IntErrorKind::Empty,
                    std::num::IntErrorKind::InvalidDigit => IntErrorKind::InvalidDigit,
                    std::num::IntErrorKind::PosOverflow => IntErrorKind::PosOverflow,
                    other => panic!("{:?}", other),
                };
                assert_eq!(ours, Err(kind), "{:?}", t);
            }
        }
    }
}

#[test]
fn unit_lists_are_read_from_text() {
    assert_eq!(names(&str_to_unitentrys("a.service, b.target ,,c.mount")), vec![
        "a.service",
        "b.target",
        "c.mount"
    ]);
    assert!(str_to_unitentrys("").is_empty());
    assert!(str_to_unitentrys(" , ").is_empty());
    assert_eq!(names(&str_to_unitentrys("a,a")), vec!["a", "a"]);
}

#[test]
fn lists_of_a_unit_are_read_from_five_texts() {
    let deps = UnitDeps::from_strs("r1,r2", "w", "b", "a1 , a2", "");
    assert_eq!(names(&deps.requires), vec!["r1", "r2"]);
    assert_eq!(names(&deps.wants), vec!["w"]);
    assert_eq!(names(&deps.before), vec!["b"]);
    assert_eq!(names(&deps.after), vec!["a1", "a2"]);
    assert!(deps.conflicts.is_empty());
    let none = empty_dep();
    assert!(none.requires.is_empty() && none.wants.is_empty() && none.after.is_empty());
    assert!(none.before.is_empty() && none.conflicts.is_empty());
    assert_eq!(empty_str(), "");
}

#[test]
fn four_fields_make_an_entry() {
    let entry = FsEntry::try_from("/dev/sda1 / ext4 rw,relatime").unwrap();
    assert_eq!(entry, FsEntry {
        fs_spec: "/dev/sda1".to_string(),
        mount_point: "/".to_string(),
        vfs_type: "ext4".to_string(),
        mount_options: "rw,relatime".to_string(),
        dump: false,
        fsck_order: 0,
    });
}

#[test]
fn six_fields_make_an_entry_with_dump_and_order() {
    let entry = FsEntry::try_from("  tmpfs\t/tmp tmpfs defaults 1 2  \nnext line").unwrap();
    assert_eq!(entry.fs_spec, "tmpfs");
    assert_eq!(entry.mount_point, "/tmp");
    assert_eq!(entry.vfs_type, "tmpfs");
    assert_eq!(entry.mount_options, "defaults");
    assert!(entry.dump);
    assert_eq!(entry.fsck_order, 2);
    let entry = FsEntry::try_from("a b c d 0 255").unwrap();
    assert!(!entry.dump);
    assert_eq!(entry.fsck_order, 255);
    let entry = FsEntry::try_from("a b c d 7 0").unwrap();
    assert!(entry.dump);
}

#[test]
fn uuid_names_the_device_by_its_identifier() {
    let entry = FsEntry::try_from("UUID=1234-abcd /boot vfat defaults").unwrap();
    assert_eq!(entry.fs_spec, "/dev/disk/by-uuid/1234-abcd");
    let entry = FsEntry::try_from("UUID: /boot vfat defaults").unwrap();
    assert_eq!(entry.fs_spec, "/dev/disk/by-uuid/");
    let entry = FsEntry::try_from("UUID /boot vfat defaults").unwrap();
    assert_eq!(entry.fs_spec, "/dev/disk/by-uuid/");
    let entry = FsEntry::try_from("UUI=1 /boot vfat defaults").unwrap();
    assert_eq!(entry.fs_spec, "UUI=1");
}

#[test]
fn wrong_number_of_fields_is_an_error() {
    assert_eq!(FsEntry::try_from("a b c"), Err(Error::Argnum(3)));
    assert_eq!(FsEntry::try_from("a b c d e"), Err(Error::Argnum(5)));
    assert_eq!(FsEntry::try_from("a b c d e f g"), Err(Error::Argnum(7)));
    assert_eq!(FsEntry::try_from(""), Err(Error::Argnum(0)));
    assert_eq!(FsEntry::try_from("\na b c d"), Err(Error::Argnum(0)));
}

#[test]
fn bad_numbers_are_an_error() {
    match FsEntry::try_from("a b c d x 1") {
        Err(Error::Parse(e)) => assert_eq!(e.kind(), IntErrorKind::InvalidDigit),
        other => panic!("{:?}", other),
    }
    match FsEntry::try_from("a b c d 1 256") {
        Err(Error::Parse(e)) => assert_eq!(e.kind(), IntErrorKind::PosOverflow),
        other => panic!("{:?}", other),
    }
    // The fifth field is looked at before the sixth.
    match FsEntry::try_from("a b c d 300 x") {
        Err(Error::Parse(e)) => assert_eq!(e.kind(), IntErrorKind::PosOverflow),
        other => panic!("{:?}", other),
    }
}

#[test]
fn fields_are_read_directly() {
    let fields: Vec<String> = ["UUID=x", "/", "ext4", "ro", "0", "1"].iter().map(|s| s.to_string()).collect();
    let entry = FsEntry::try_from_fields(&fields).unwrap();
    assert_eq!(entry.fs_spec, "/dev/disk/by-uuid/x");
    assert_eq!(entry.fsck_order, 1);
    assert_eq!(FsEntry::try_from_fields(&fields[..2].to_vec()), Err(Error::Argnum(2)));
}

#[test]
fn table_gives_its_readable_entries() {
    let lines: Vec<String> = [
        "# /etc/fstab",
        "",
        "   ",
        "/dev/sda1 / ext4 defaults 0 1",
        "broken line",
        "  # not a comment, and not an entry either",
        "tmpfs /tmp tmpfs size=1G",
        "/dev/sdb1 /data ext4 defaults zero 2",
    ]
    .iter()
    .map(|s| s.to_string())
    .collect();
    let found = FsEntry::from_lines(&lines);
    let points: Vec<&str> = found.iter().map(|e| e.mount_point.as_str()).collect();
    assert_eq!(points, vec!["/", "/tmp"]);
    assert_eq!(found[0].clone(), found[0]);
}

#[test]
fn mount_points_give_unit_names() {
    assert_eq!(mount_point_to_unit_name("/"), "-.mount");
    assert_eq!(mount_point_to_unit_name("/home"), "home.mount");
    assert_eq!(mount_point_to_unit_name("/var/lib/docker"), "var-lib-docker.mount");
    assert_eq!(mount_point_to_unit_name("/mnt/my-disk"), "mnt-my\\x2ddisk.mount");
    assert_eq!(mount_point_to_unit_name("none"), "none.mount");
    assert_eq!(mount_point_to_unit_name(""), ".mount");
    assert_eq!(mount_point_to_unit_name("//"), "-.mount");
    assert_eq!(mount_point_to_unit_name("a/b-c"), "a-b\\x2dc.mount");
}

#[test]
fn mount_unit_is_named_after_its_mount_point() {
    let entry = FsEntry::try_from("/dev/sda2 /srv/data ext4 defaults 0 2").unwrap();
    let unit = UnitImpl::<MountInfo>::from_entry(&entry);
    assert_eq!(unit.name(), "srv-data.mount");
    assert_eq!(unit.description(), "");
    assert_eq!(unit.documentation(), "");
    assert!(unit.deps().requires.is_empty());
    assert_eq!(unit.kind(), UnitKind::Mount);
    assert_eq!(unit.sub.fs_spec, "/dev/sda2");
    assert_eq!(unit.sub.mount_options, "defaults");
    assert_eq!(unit.id(), UnitId::new("srv-data.mount"));
}

#[test]
fn kernel_list_names_mount_points() {
    let line = "36 35 98:0 /mnt1 /mnt/data rw,noatime master:1 - ext3 /dev/root rw";
    assert_eq!(mount_point_of_line(line), Some("/mnt/data".to_string()));
    assert_eq!(mount_point_of_line("36 35 98:0 /mnt1"), None);
    assert_eq!(mount_point_of_line(""), None);
}

#[test]
fn mount_monitor_reports_what_is_gone() {
    let text = "1 2 0:1 / / rw - ext4 /dev/a rw\n3 2 0:2 / /home rw - ext4 /dev/b rw\nshort\n4 2 0:3 / /home rw - x y z\n";
    let mounted = mounted_units(text);
    assert_eq!(mounted.len(), 2);
    assert!(mounted.contains(&UnitId::new("-.mount")));
    assert!(mounted.contains(&UnitId::new("home.mount")));

    let mut store = MountMonitorStore::new();
    store.register(UnitId::new("home.mount"));
    store.register(UnitId::new("data.mount"));
    store.register(UnitId::new("home.mount"));
    store.register(UnitId::new("tmp.mount"));
    store.remove(&UnitId::new("tmp.mount"));
    assert!(!store.contains(&UnitId::new("tmp.mount")));
    let dead = store.lost(&mounted);
    assert_eq!(dead, vec![UnitId::new("data.mount")]);
    assert!(store.contains(&UnitId::new("home.mount")));
    assert!(!store.contains(&UnitId::new("data.mount")));
    assert!(store.lost(&mounted).is_empty());
}

#[test]
fn command_lines_give_program_and_arguments() {
    assert_eq!(
        command_line("/bin/sleep  10 20", Sep::Space),
        Some(("/bin/sleep".to_string(), vec!["10".to_string(), "20".to_string()]))
    );
    assert_eq!(command_line("run", Sep::AsciiSpace), Some(("run".to_string(), vec![])));
    assert_eq!(command_line("   ", Sep::Space), None);
    assert_eq!(command_line("", Sep::AsciiSpace), None);
}

#[test]
fn service_keeps_what_it_is_made_of() {
    let service = Impl::new(
        Kind::Oneshot,
        "/bin/up now".to_string(),
        "/bin/down".to_string(),
        "/bin/again".to_string(),
    );
    assert_eq!(service.kind(), Kind::Oneshot);
    assert_eq!(service.exec_start(), "/bin/up now");
    assert_eq!(service.exec_stop(), "/bin/down");
    assert_eq!(service.exec_restart(), "/bin/again");
    assert_eq!(service.start_plan(), Some(("/bin/up".to_string(), vec!["now".to_string()])));
    match service.stop_plan() {
        StopPlan::Run(program, args) => {
            assert_eq!(program, "/bin/down");
            assert!(args.is_empty());
        }
        other => panic!("{:?}", other),
    }
    let simple = Impl::new(Kind::Simple, "x".to_string(), String::new(), String::new());
    assert!(matches!(simple.stop_plan(), StopPlan::Kill));
    let forking = Impl::new(Kind::Forking, "x".to_string(), "y".to_string(), String::new());
    assert_eq!(forking.start_plan(), None);
    assert!(matches!(forking.stop_plan(), StopPlan::Unsupported));
    let silent = Impl::new(Kind::Oneshot, " ".to_string(), String::new(), String::new());
    assert_eq!(silent.start_plan(), None);
    assert!(matches!(silent.stop_plan(), StopPlan::Unsupported));
    assert!(Kind::Simple.is_supported() && Kind::Oneshot.is_supported());
    assert!(!Kind::Notify.is_supported() && !Kind::Forking.is_supported());
}

#[test]
fn trial_service_uses_its_start_line_throughout() {
    let unit = UnitImpl::<Impl>::gen_test(
        "t.service",
        UnitDeps::new(),
        Kind::Simple,
        "start it",
        "stop it",
        "again",
    );
    assert_eq!(unit.name(), "t.service");
    assert_eq!(unit.description(), "");
    assert_eq!(unit.kind(), UnitKind::Service);
    assert_eq!(unit.sub.kind(), Kind::Simple);
    assert_eq!(unit.sub.exec_start(), "start it");
    assert_eq!(unit.sub.exec_stop(), "start it");
    assert_eq!(unit.sub.exec_restart(), "start it");
}

#[test]
fn exit_of_the_process_decides_the_state() {
    assert_eq!(exit_state(true), State::Stopped);
    assert_eq!(exit_state(false), State::Failed);
}

#[test]
fn socket_has_its_service_started_on_a_knock() {
    let service = UnitId::new("echo.service");
    let mut socket = RtState::Listening;
    assert_eq!(socket.wait_for(), Awaited::Readable);
    assert!(socket.on(SocketEvent::Handover(true), &service).is_none());
    assert_eq!(socket, RtState::Listening);
    match socket.on(SocketEvent::Readable, &service) {
        Some(RtMsg::TriggerStart(id)) => assert_eq!(id, service),
        other => panic!("{:?}", other),
    }
    assert_eq!(socket, RtState::Starting);
    assert_eq!(socket.wait_for(), Awaited::Handover);
    assert!(socket.on(SocketEvent::Readable, &service).is_none());
    assert!(matches!(socket.on(SocketEvent::Handover(true), &service), Some(RtMsg::Yield)));
    assert_eq!(socket, RtState::Running);
    assert_eq!(socket.wait_for(), Awaited::Nothing);
    assert!(socket.on(SocketEvent::Readable, &service).is_none());
    assert_eq!(socket, RtState::Running);

    let mut socket = RtState::Starting;
    assert!(matches!(socket.on(SocketEvent::Handover(false), &service), Some(RtMsg::Yield)));
    assert_eq!(socket, RtState::Listening);
}

#[test]
fn states_know_what_they_are() {
    let all = [
        State::Uninit,
        State::Stopped,
        State::Failed,
        State::Starting,
        State::Active,
        State::Stopping,
    ];
    let names = ["Uninit", "Stopped", "Failed", "Starting", "Active", "Stopping"];
    for (i, s) in all.iter().enumerate() {
        assert_eq!(s.code() as usize, i);
        assert_eq!(s.name(), names[i]);
        assert_eq!(s.to_string(), names[i]);
        assert_eq!(s.is_active(), *s == State::Active);
        assert_eq!(s.is_dead(), i < 3);
        assert_eq!(StateSet::dead().contains(*s), s.is_dead());
        assert_eq!(StateSet::dead().complement().contains(*s), !s.is_dead());
        assert!(StateSet::only(*s).contains(*s));
        assert!(!StateSet::empty().contains(*s));
    }
    assert!(State::Uninit < State::Stopped && State::Active < State::Stopping);
    assert_eq!(State::default(), State::Uninit);
    assert!(!StateSet::only(State::Active).contains(State::Failed));
    assert!(StateSet::only(State::Active).with(State::Failed).contains(State::Failed));
}

#[test]
fn kinds_have_names() {
    assert_eq!(UnitKind::Service.name(), "service");
    assert_eq!(UnitKind::Timer.name(), "timer");
    assert_eq!(UnitKind::Mount.name(), "mount");
    assert_eq!(UnitKind::Target.name(), "target");
    assert_eq!(UnitKind::Socket.to_string(), "socket");
}
