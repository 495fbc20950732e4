use buck2_engine::buck2_resource_control::cgroup_info::CGroupError;
use buck2_engine::buck2_resource_control::cgroup_info::CGroupInfo;
use buck2_engine::buck2_resource_control::cgroup_info::MemoryStat;
use buck2_engine::buck2_resource_control::cgroup_info::MemoryStatErrorKind;
use buck2_engine::buck2_resource_control::path::CgroupPathBuf;

fn parse(cgroup: &str) -> CGroupInfo {
    CGroupInfo::parse(cgroup).unwrap_or_else(|e| panic!("{}", e.message()))
}

#[test]
fn test_cgroup_info_parse() {
    let cgroup = "0::/user.slice/user-532497.slice/user@532497.service/buck2.slice/buck2-daemon.fbsource.v2.slice/buck2-daemon.fbsource.v2-forkserver.slice/buck2-daemon.fbsource.v2-forkserver-f80cd8522e809ed63d6bffd0ff21637a81c760928a3ecf01cc3ef5d9046dd6d5:145.slice";
    assert_eq!(
        "/sys/fs/cgroup/user.slice/user-532497.slice/user@532497.service/buck2.slice/buck2-daemon.fbsource.v2.slice/buck2-daemon.fbsource.v2-forkserver.slice/buck2-daemon.fbsource.v2-forkserver-f80cd8522e809ed63d6bffd0ff21637a81c760928a3ecf01cc3ef5d9046dd6d5:145.slice",
        parse(cgroup).path.to_string()
    );
}

#[test]
fn test_cgroup_get_slice() {
    let cgroup = "0::/user.slice/user-532497.slice/user@532497.service/buck2.slice/buck2-daemon.fbsource.v2.slice/buck2-daemon-fbsource-v2.scope";
    let info = parse(cgroup);
    assert_eq!(
        "/sys/fs/cgroup/user.slice/user-532497.slice/user@532497.service/buck2.slice/buck2-daemon.fbsource.v2.slice/buck2-daemon-fbsource-v2.scope",
        info.path.to_string()
    );
    assert_eq!(
        Some(
            "/sys/fs/cgroup/user.slice/user-532497.slice/user@532497.service/buck2.slice/buck2-daemon.fbsource.v2.slice".to_owned()
        ),
        info.get_slice().map(|p| p.to_string())
    );
}

#[test]
fn test_parse_memory_stat() {
    let sample_stat = r#"anon 1048576
file 2097152
kernel 524288
kernel_stack 8192
pagetables 16384
percpu 32768
sock 4096
vmalloc 65536
shmem 131072
file_mapped 262144
file_dirty 8192
file_writeback 0
swapcached 0
anon_thp 0
file_thp 0
shmem_thp 0
inactive_anon 524288
active_anon 524288
inactive_file 1048576
active_file 1048576
unevictable 0
slab_reclaimable 196608
slab_unreclaimable 65536
slab 262144"#;

    let stat = MemoryStat::parse(sample_stat).unwrap_or_else(|e| panic!("{}", e.message()));
    assert_eq!(stat.anon, 1048576);
    assert_eq!(stat.file, 2097152);
    assert_eq!(stat.kernel, 524288);
    assert_eq!(stat.inactive_anon, 524288);
    assert_eq!(stat.active_anon, 524288);
    assert_eq!(stat.inactive_file, 1048576);
    assert_eq!(stat.active_file, 1048576);
}

#[test]
fn cgroup_without_path_is_an_error() {
    assert!(matches!(CGroupInfo::parse("0:name"), Err(CGroupError::NoPath)));
    assert!(matches!(CGroupInfo::parse(""), Err(CGroupError::NoPath)));
    match CGroupInfo::parse("no colon at all") {
        Err(e) => assert_eq!(e.message(), "Failed to parse cgroup path"),
        Ok(_) => panic!("there is no path"),
    }
}

#[test]
fn cgroup_path_keeps_later_colons() {
    assert_eq!(parse("12:memory,cpu:/a:b:c").path.to_string(), "/sys/fs/cgroup/a:b:c");
    assert_eq!(parse("0::").path.to_string(), "/sys/fs/cgroup");
    assert_eq!(parse("0::/").path.to_string(), "/sys/fs/cgroup/");
}

#[test]
fn cgroup_path_has_to_be_normalized() {
    match CGroupInfo::parse("0::/a/../b") {
        Err(CGroupError::PathNotNormalized(path)) => assert_eq!(path, "/sys/fs/cgroup/a/../b"),
        _ => panic!("the path leads to a parent"),
    }
    assert!(matches!(
        CGroupInfo::parse("0::/a/.."),
        Err(CGroupError::PathNotNormalized(_))
    ));
    // dots that are no component of their own are fine
    assert_eq!(parse("0::/a..b/..c/d..").path.to_string(), "/sys/fs/cgroup/a..b/..c/d..");
    assert!(CgroupPathBuf::new("relative/path".to_owned()).is_none());
    assert!(CgroupPathBuf::new(String::new()).is_none());
    assert!(CgroupPathBuf::new("/..".to_owned()).is_none());
    assert_eq!(CgroupPathBuf::new("/".to_owned()).map(|p| p.to_string()), Some("/".to_owned()));
}

#[test]
fn read_from_str_takes_the_first_line() {
    let info = CGroupInfo::read_from_str("0::/first.slice/x\n1:name:/second\n")
        .unwrap_or_else(|e| panic!("{}", e.message()));
    assert_eq!(info.path.to_string(), "/sys/fs/cgroup/first.slice/x");
    let info = CGroupInfo::read_from_str("0::/first\r\n").unwrap_or_else(|e| panic!("{}", e.message()));
    assert_eq!(info.path.to_string(), "/sys/fs/cgroup/first");
    match CGroupInfo::read_from_str("") {
        Err(e) => {
            assert!(matches!(e, CGroupError::NoFirstLine));
            assert_eq!(e.message(), "Failed to read the first line of /proc/self/cgroup");
        }
        Ok(_) => panic!("there is no line"),
    }
    assert!(matches!(CGroupInfo::read_from_str("\n0::/a"), Err(CGroupError::NoPath)));
}

#[test]
fn get_slice_takes_the_last_slice() {
    assert!(parse("0::/a/b.scope").get_slice().is_none());
    assert_eq!(
        parse("0::/a.slice/b.slice").get_slice().map(|p| p.to_string()),
        Some("/sys/fs/cgroup/a.slice/b.slice".to_owned())
    );
    assert_eq!(
        parse("0::/a.slicer/b").get_slice().map(|p| p.to_string()),
        Some("/sys/fs/cgroup/a.slice".to_owned())
    );
    assert_eq!(
        parse("0::/a.slice").memory_stat_path(),
        "/sys/fs/cgroup/a.slice/memory.stat"
    );
}

fn stat_error(content: &str) -> (MemoryStatErrorKind, String, String) {
    match MemoryStat::parse(content) {
        Err(e) => (e.kind, e.line.clone(), e.message()),
        Ok(_) => panic!("the text cannot be read"),
    }
}

#[test]
fn memory_stat_errors() {
    assert_eq!(
        stat_error("anon 1\n\nfile 2"),
        (MemoryStatErrorKind::NoKey, "".to_owned(), "Invalid line: '' (no key)".to_owned())
    );
    assert_eq!(
        stat_error("anon 1\nfile"),
        (
            MemoryStatErrorKind::NoValue,
            "file".to_owned(),
            "Invalid line: 'file' (no value)".to_owned()
        )
    );
    assert_eq!(
        stat_error("anon -1"),
        (
            MemoryStatErrorKind::InvalidValue,
            "anon -1".to_owned(),
            "Invalid line: 'anon -1' (invalid value)".to_owned()
        )
    );
    assert_eq!(
        stat_error("anon 1 2\r\nfile 3"),
        (
            MemoryStatErrorKind::TooManyParts,
            "anon 1 2".to_owned(),
            "Invalid line: 'anon 1 2' (too many parts)".to_owned()
        )
    );
    // the value is looked at before the parts are counted
    assert_eq!(stat_error("anon x 2").0, MemoryStatErrorKind::InvalidValue);
    assert_eq!(stat_error("anon 18446744073709551616").0, MemoryStatErrorKind::InvalidValue);
    assert_eq!(stat_error("anon 1x").0, MemoryStatErrorKind::InvalidValue);
    assert_eq!(stat_error("anon +").0, MemoryStatErrorKind::InvalidValue);
}

#[test]
fn memory_stat_edge_cases() {
    let empty = MemoryStat::parse("").unwrap_or_else(|e| panic!("{}", e.message()));
    assert_eq!(
        empty,
        MemoryStat {
            anon: 0,
            inactive_anon: 0,
            active_anon: 0,
            file: 0,
            active_file: 0,
            inactive_file: 0,
            kernel: 0
        }
    );
    let stat = MemoryStat::parse("  anon\t+18446744073709551615 \r\nanon 7\nfile 007\nother 1\n")
        .unwrap_or_else(|e| panic!("{}", e.message()));
    assert_eq!(stat.anon, 7);
    assert_eq!(stat.file, 7);
    assert_eq!(stat.kernel, 0);
    let stat = MemoryStat::parse("kernel\u{2003}18446744073709551615")
        .unwrap_or_else(|e| panic!("{}", e.message()));
    assert_eq!(stat.kernel, u64::MAX);
    let info = parse("0::/a");
    let stat = info.read_memory_stat("active_file 12\n").unwrap_or_else(|e| panic!("{}", e.message()));
    assert_eq!(stat.active_file, 12);
}
