use nixos_utils::health::metrics::{
    core_series, cpu_deltas, cpu_slot, cpu_times_fit, disk_deltas, disk_series, first_per_device,
    fs_series, net_series,
    meminfo_fits, net_deltas, parse_cpu_times, parse_diskstats, parse_meminfo, parse_mounts,
    parse_net_dev, put_at, read_fs_usage, sanitize, temp_index, temp_label_file, temp_name,
    temp_series, CpuSlot, DiskCounters, MemInfo, PrevCpu, PrevDisk, StatVfs,
};
use nixos_utils::health::sampler::{Ring, SampleClock};
use nixos_utils::health::series::align_series;
use nixos_utils::health::status::{fs_statuses, FsStatus, MemStatus};
use nixos_utils::health::web;
use nixos_utils::table::StrMap;

fn s(x: &str) -> String {
    x.to_string()
}

#[test]
fn mem_used_saturates() {
    let mut m = MemInfo::default();
    m.total = 100;
    m.available = 30;
    assert_eq!(m.used(), 70);
    m.available = 130;
    assert_eq!(m.used(), 0);
}

const MEMINFO: &str = "MemTotal:       16000 kB\nMemFree:         1000 kB\nMemAvailable:    8000 kB\nBuffers:          200 kB\nCached:          3000 kB\nSwapCached:         0 kB\nSwapTotal:       4000 kB\nSwapFree:        3000 kB\nHugePages_Total:    0\n";

#[test]
fn meminfo_is_read_in_bytes() {
    assert!(meminfo_fits(MEMINFO));
    let m = parse_meminfo(MEMINFO);
    assert_eq!(m.total, 16000 * 1024);
    assert_eq!(m.free, 1000 * 1024);
    assert_eq!(m.available, 8000 * 1024);
    assert_eq!(m.buffers, 200 * 1024);
    assert_eq!(m.cache, 3000 * 1024);
    assert_eq!(m.swap_total, 4000 * 1024);
    assert_eq!(m.swap_used, 1000 * 1024);
    assert_eq!(m.used(), 8000 * 1024);
}

#[test]
fn meminfo_swap_free_before_total_and_bad_lines() {
    let m = parse_meminfo("SwapFree: 10 kB\nSwapTotal: 30 kB\nMemTotal: x kB\nMemTotal:\n");
    assert_eq!(m.swap_used, 0);
    assert_eq!(m.swap_total, 30 * 1024);
    assert_eq!(m.total, 0);
    assert!(!meminfo_fits("MemTotal: 18446744073709551615 kB\n"));
    let empty = parse_meminfo("");
    assert_eq!(empty.total, 0);
}

const STAT: &str = "cpu  10 0 10 70 10 0 0 0 0 0\ncpu0 5 0 5 35 5 0 0 0 0 0\ncpu1 5 0 5 35\nintr 1 2 3\ncpux 1 2\n";

#[test]
fn cpu_times_from_proc_stat() {
    assert!(cpu_times_fit(STAT));
    let t = parse_cpu_times(STAT);
    let v: Vec<(String, u64, u64)> = t.iter().map(|c| (c.name.clone(), c.idle, c.total)).collect();
    assert_eq!(v, vec![(s("cpu"), 80, 100), (s("cpu0"), 40, 50), (s("cpu1"), 35, 45)]);
    assert!(!cpu_times_fit("cpu 18446744073709551615 1 1 1\n"));
    assert!(cpu_times_fit("intr 18446744073709551615 1 1 1\n"));
}

#[test]
fn cpu_slots() {
    assert!(matches!(cpu_slot("cpu"), CpuSlot::Total));
    assert!(matches!(cpu_slot("cpu3"), CpuSlot::Core(3)));
    assert!(matches!(cpu_slot("cpu+3"), CpuSlot::Core(3)));
    assert!(matches!(cpu_slot("cpux"), CpuSlot::Other));
    assert!(matches!(cpu_slot("intr"), CpuSlot::Other));
}

#[test]
fn put_at_grows_with_fill() {
    let mut v = vec![1u32];
    put_at(&mut v, 3, 9, 0);
    assert_eq!(v, vec![1, 0, 0, 9]);
    put_at(&mut v, 0, 5, 0);
    assert_eq!(v, vec![5, 0, 0, 9]);
}

#[test]
fn cpu_deltas_against_previous_sample() {
    let mut prev: StrMap<PrevCpu> = StrMap::new();
    let first = parse_cpu_times("cpu 10 0 10 70 10\n");
    let d = cpu_deltas(&mut prev, &first);
    assert_eq!((d[0].idle, d[0].total), (0, 0));
    let second = parse_cpu_times("cpu 20 0 20 110 10\n");
    let d = cpu_deltas(&mut prev, &second);
    assert_eq!(d[0].name, "cpu");
    assert_eq!((d[0].idle, d[0].total), (40, 60));
    // a counter that went back counts as no time passed
    let third = parse_cpu_times("cpu 1 0 1 1 1\n");
    let d = cpu_deltas(&mut prev, &third);
    assert_eq!((d[0].idle, d[0].total), (0, 0));
    assert_eq!(prev.get("cpu").map(|p| p.total), Some(4));
}

const NET_DEV: &str = "Inter-|   Receive                                                |  Transmit\n face |bytes    packets errs drop fifo frame compressed multicast|bytes    packets errs drop fifo colls carrier compressed\n    lo: 1000 10 0 0 0 0 0 0 1000 10 0 0 0 0 0 0\n  eth0: 5000 50 0 0 0 0 0 0 7000 70 0 0 0 0 0 0\nbad line\n";

#[test]
fn net_dev_lines() {
    let v = parse_net_dev(NET_DEV);
    assert_eq!(v, vec![(s("lo"), 1000, 1000), (s("eth0"), 5000, 7000)]);
    assert!(parse_net_dev("only\nheaders\n").is_empty());
}

#[test]
fn net_deltas_saturate() {
    let mut prev: StrMap<(u64, u64)> = StrMap::new();
    let d = net_deltas(&mut prev, &vec![(s("eth0"), 100, 200)]);
    assert_eq!(d, vec![(s("eth0"), 0, 0)]);
    let d = net_deltas(&mut prev, &vec![(s("eth0"), 150, 100)]);
    assert_eq!(d, vec![(s("eth0"), 50, 0)]);
    assert_eq!(prev.get("eth0"), Some(&(150, 100)));
}

const DISKSTATS: &str = "   7       0 loop0 1 0 2 0 0 0 0 0 0 0 0 0 0 0 0 0 0\n   8       0 sda 100 0 800 50 200 0 1600 70 0 90 120 0 0 0 0 0 0\n 259 0 nvme0n1 1 2 3 4 5 6 7 8 9 10\n";

#[test]
fn diskstats_skip_loop_devices() {
    let v = parse_diskstats(DISKSTATS);
    assert_eq!(v.len(), 1);
    let d = &v[0];
    assert_eq!(d.name, "sda");
    assert_eq!((d.reads, d.writes, d.read_sectors, d.write_sectors, d.io_ms), (100, 200, 800, 1600, 90));
}

#[test]
fn disk_deltas_show_no_spike_on_first_sight() {
    let mut prev: StrMap<PrevDisk> = StrMap::new();
    let c = |r: u64| DiskCounters { name: s("sda"), reads: r, writes: r, read_sectors: r, write_sectors: r, io_ms: r };
    let d = disk_deltas(&mut prev, &vec![c(100)]);
    assert_eq!((d[0].reads, d[0].io_ms), (0, 0));
    let d = disk_deltas(&mut prev, &vec![c(130)]);
    assert_eq!((d[0].reads, d[0].writes, d[0].read_sectors, d[0].write_sectors, d[0].io_ms), (30, 30, 30, 30, 30));
    assert_eq!(prev.get("sda").map(|p| p.reads), Some(130));
}

const MOUNTS: &str = "sysfs /sys sysfs rw 0 0\n/dev/sda1 / ext4 rw 0 0\n/dev/loop0 /snap squashfs ro 0 0\n/dev/sda1 /var/lib/docker ext4 rw 0 0\n/dev/sdb1 /data xfs rw 0 0\n/dev/sdc\n";

#[test]
fn mounts_of_block_devices_once_each() {
    let m = parse_mounts(MOUNTS);
    assert_eq!(
        m,
        vec![
            (s("/dev/sda1"), s("/"), s("ext4")),
            (s("/dev/sda1"), s("/var/lib/docker"), s("ext4")),
            (s("/dev/sdb1"), s("/data"), s("xfs")),
        ]
    );
    let u = first_per_device(m);
    assert_eq!(u, vec![(s("/dev/sda1"), s("/"), s("ext4")), (s("/dev/sdb1"), s("/data"), s("xfs"))]);
}

#[test]
fn fs_usage_from_statvfs() {
    let mounts = vec![
        (s("/dev/sda1"), s("/"), s("ext4")),
        (s("/dev/sdb1"), s("/data"), s("xfs")),
        (s("/dev/sdc1"), s("/x"), s("ext4")),
        (s("/dev/sdd1"), s("/y"), s("ext4")),
    ];
    let stats = vec![
        Some(StatVfs { blocks: 1000, bfree: 400, bavail: 300, frsize: 4096 }),
        None,
        Some(StatVfs { blocks: 0, bfree: 0, bavail: 0, frsize: 4096 }),
        Some(StatVfs { blocks: u64::MAX, bfree: 10, bavail: 5, frsize: 2 }),
    ];
    let f = read_fs_usage(&mounts, &stats);
    assert_eq!(f.len(), 2);
    assert_eq!(f[0].mount, "/");
    assert_eq!((f[0].total, f[0].used, f[0].avail), (4096000, 600 * 4096, 300 * 4096));
    assert_eq!(f[1].device, "/dev/sdd1");
    assert_eq!((f[1].total, f[1].used, f[1].avail), (u64::MAX, u64::MAX, 10));
    let st = fs_statuses(&f);
    assert_eq!(st.len(), 2);
    let one: FsStatus = FsStatus::of(&f[0]);
    assert_eq!((one.device.as_str(), one.total), ("/dev/sda1", 4096000));
}

#[test]
fn temperature_sensor_names() {
    assert_eq!(temp_index("temp1_input"), Some(s("1")));
    assert_eq!(temp_index("temp_input"), Some(s("")));
    assert_eq!(temp_index("temp1_label"), None);
    assert_eq!(temp_index("fan1_input"), None);
    assert_eq!(temp_label_file("3"), "temp3_label");
    assert_eq!(temp_name("coretemp\n", "1", "Package id 0\n"), "Package id 0");
    assert_eq!(temp_name("coretemp\n", "2", ""), "coretemp 2");
    assert_eq!(temp_name("  ", "2", "  "), " 2");
}

#[test]
fn sanitized_series_names() {
    assert_eq!(sanitize("/var/lib/docker"), "var-lib-docker");
    assert_eq!(sanitize("/"), "");
    assert_eq!(sanitize("Package id 0"), "Package-id-0");
    assert_eq!(sanitize("--a.b_c--"), "a.b_c");
    assert_eq!(sanitize("ümlaut"), "mlaut");
    for x in ["/var/lib/docker", "", "a b", "--x--", "ü-ß"] {
        let once = sanitize(x);
        assert_eq!(sanitize(&once), once);
        assert_eq!(web::sanitize(x), once);
    }
    assert_eq!(fs_series("/data"), (s("fs.data.used"), s("fs.data.avail")));
    assert_eq!(temp_series("Core 0"), "temp.Core-0");
    assert_eq!(core_series(12), "cpu.core.12");
    assert_eq!(net_series("eth0"), (s("net.eth0.rx"), s("net.eth0.tx")));
    assert_eq!(
        disk_series("sda"),
        vec![s("disk.sda.read"), s("disk.sda.write"), s("disk.sda.read.iops"), s("disk.sda.write.iops"), s("disk.sda.util")]
    );
}

#[test]
fn web_mount_series_and_agreement() {
    assert_eq!(web::mount_series("/"), "root");
    assert_eq!(web::mount_series("/data"), "data");
    assert_eq!(web::fs_card_series("/data"), fs_series("/data"));
    // the root file system is `root` in series names, on both sides
    assert_eq!(web::fs_card_series("/"), (s("fs.root.used"), s("fs.root.avail")));
    assert_eq!(fs_series("/"), (s("fs.root.used"), s("fs.root.avail")));
    assert_eq!(web::temp_card_series("Core 0"), temp_series("Core 0"));
}

#[test]
fn web_palette_and_cpu_series() {
    assert_eq!(web::color(0), "#22d3ee");
    assert_eq!(web::color(13), "#4ade80");
    assert_eq!(web::color(14), "#22d3ee");
    assert_eq!(web::color(17), web::color(3));
    let total = web::cpu_series(0);
    assert_eq!(total.len(), 1);
    assert_eq!((total[0].name.as_str(), total[0].label.as_str()), ("cpu.total", "total"));
    let cores = web::cpu_series(3);
    assert_eq!(cores.len(), 3);
    assert_eq!(cores[2].name, "cpu.core.2");
    assert_eq!(cores[2].label, "c2");
    assert_eq!(cores[2].color, web::color(2));
    assert!(cores[2].fill && !cores[2].dash);
}

#[test]
fn web_virtual_interfaces() {
    for n in ["lo", "veth12", "podman0", "vm-test", "br-tap3"] {
        assert!(web::is_virtual(n), "{}", n);
    }
    for n in ["eth0", "wlan0", "lo0", "enp3s0"] {
        assert!(!web::is_virtual(n), "{}", n);
    }
}

#[test]
fn ring_keeps_the_latest() {
    let mut r: Ring<u32> = Ring::new(3);
    for i in 1..=5 {
        r.push(i);
    }
    assert_eq!(r.len(), 3);
    assert_eq!(r.items().iter().copied().collect::<Vec<_>>(), vec![3, 4, 5]);
    let mut z: Ring<u32> = Ring::new(0);
    z.push(1);
    assert_eq!(z.len(), 0);
}

#[test]
fn clock_sends_every_nth_sample_to_the_slow_ring() {
    let mut c = SampleClock::new(3);
    let slow: Vec<bool> = (0..7).map(|_| c.next()).collect();
    assert_eq!(slow, vec![false, false, true, false, false, true, false]);
    assert_eq!(c.tick_count(), 7);
    let mut every = SampleClock::new(1);
    assert!(every.next());
}

#[test]
fn status_figures() {
    let mut m = MemInfo::default();
    m.total = 10;
    m.available = 4;
    m.swap_used = 2;
    let st = MemStatus::of(&m);
    assert_eq!((st.total, st.used, st.available, st.swap_used), (10, 6, 4, 2));
    let z = MemStatus::default();
    assert_eq!(z.total + z.used + z.free, 0);
    let w = web::MemStatus::default();
    assert_eq!(w.swap_total, 0);
}

#[test]
fn series_table_aligns_buckets() {
    let buckets: Vec<Option<Vec<(String, u32)>>> = vec![
        Some(vec![(s("cpu.total"), 1), (s("mem.used"), 2)]),
        None,
        Some(vec![(s("net.eth0.rx"), 3), (s("cpu.total"), 4), (s("cpu.total"), 5)]),
    ];
    let t = align_series(&buckets);
    assert_eq!(
        t,
        vec![
            (s("cpu.total"), vec![Some(1), None, Some(5)]),
            (s("mem.used"), vec![Some(2), None, None]),
            (s("net.eth0.rx"), vec![None, None, Some(3)]),
        ]
    );
    assert!(align_series::<u32>(&vec![None, None]).is_empty());
}

#[test]
fn newest_value_of_a_series() {
    assert_eq!(web::last_value(&vec![Some(1u32), Some(2), None]), Some(2));
    assert_eq!(web::last_value::<u32>(&vec![None, None]), None);
    assert_eq!(web::last_value::<u32>(&vec![]), None);
}
