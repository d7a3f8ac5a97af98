use myterm::monitor::{extract_section, monitor_output_fits, parse_cpu_usage, parse_monitor_output, parse_processes, extract_mem_value};

#[test]
fn extracts_multiline_section_between_markers() {
    let output = "===HOSTNAME===\nserver-1\n===MEMORY===\nMemTotal: 10 kB\nCached: 2 kB\n===END===";

    assert_eq!(extract_section(output, "HOSTNAME").as_deref(), Some("server-1"));
    assert_eq!(
        extract_section(output, "MEMORY").as_deref(),
        Some("MemTotal: 10 kB\nCached: 2 kB")
    );
}

#[test]
fn parses_process_rows_with_args() {
    let rows = "123 4.5 1.2 sshd sshd: wayserver [priv]\n456 0.1 3.4 java java -jar app.jar";
    let processes = parse_processes(rows);

    assert_eq!(processes.len(), 2);
    assert_eq!(processes[0].pid, 123);
    assert_eq!(processes[0].cpu.parse::<f64>().unwrap(), 4.5);
    assert_eq!(processes[0].memory.parse::<f64>().unwrap(), 1.2);
    assert_eq!(processes[0].command, "sshd");
    assert_eq!(processes[0].args, "sshd: wayserver [priv]");
}

const XTERMINAL_REPORT: &str = r#"===HOSTNAME===
server-1
===OS===
Linux 5.4 x86_64
===UPTIME===
120
===LOAD===
0.1 0.2 0.3 1/2 3
===CPU===
2
===CPU_USAGE===
cpu 12.50
cpu0 10.00
cpu1 15.00
===MEMORY===
MemTotal: 1000 kB
MemFree: 100 kB
Buffers: 50 kB
Cached: 200 kB
SReclaimable: 25 kB
SwapTotal: 500 kB
SwapFree: 400 kB
===NETWORK===
10000 20000 300 400 eth0,eth1
===DISKSTATS===
1024 2048
===DISK===
/dev/vda1 ext4 100000 45000 /
===GPU===
none
===TOP_CPU===
1 2.0 3.0 init /sbin/init
===TOP_MEM===
1 2.0 3.0 init /sbin/init
===END==="#;

#[test]
fn parses_xterminal_style_monitor_rates_and_disk_types() {
    let output = XTERMINAL_REPORT;
    assert!(monitor_output_fits(output));

    let data = parse_monitor_output(output).expect("monitor output should parse");

    assert_eq!(data.cpu_usage.parse::<f64>().unwrap(), 12.5);
    let cores: Vec<f64> = data.cpu_cores.iter().map(|c| c.parse::<f64>().unwrap()).collect();
    assert_eq!(cores, vec![10.0, 15.0]);
    assert_eq!(data.mem_used, 625 * 1024);
    assert_eq!(data.mem_cached, 275 * 1024);
    assert_eq!(data.net_rx_rate, 300);
    assert_eq!(data.net_tx_rate, 400);
    assert_eq!(data.net_interfaces, vec!["eth0".to_string(), "eth1".to_string()]);
    assert_eq!(data.disk_partitions[0].fs_type, "ext4");
    assert_eq!(data.disk_partitions[0].read_rate, 1024);
    assert_eq!(data.disk_partitions[0].write_rate, 2048);
}

#[test]
fn monitor_report_other_figures() {
    let data = parse_monitor_output(XTERMINAL_REPORT).expect("parse");
    assert_eq!(data.hostname, "server-1");
    assert_eq!(data.os_info, "Linux 5.4 x86_64");
    assert_eq!(data.uptime, 120);
    assert_eq!(data.load_avg, vec!["0.1".to_string(), "0.2".to_string(), "0.3".to_string()]);
    assert_eq!(data.mem_total, 1000 * 1024);
    assert_eq!(data.swap_total, 500 * 1024);
    assert_eq!(data.swap_used, 100 * 1024);
    assert_eq!(data.net_rx, 10000);
    assert_eq!(data.net_tx, 20000);
    assert_eq!(data.disk_partitions.len(), 1);
    assert_eq!(data.disk_partitions[0].mount, "/");
    assert_eq!(data.disk_partitions[0].total, 100000);
    assert_eq!(data.disk_partitions[0].used, 45000);
    assert!(data.gpu.is_none());
    assert_eq!(data.top_cpu_processes.len(), 1);
    assert_eq!(data.top_cpu_processes[0].command, "init");
    assert_eq!(data.top_mem_processes[0].args, "/sbin/init");
}

#[test]
fn missing_section_is_none() {
    assert_eq!(extract_section("===A===\nx\n===END===", "B"), None);
}

#[test]
fn memory_values_in_kilobytes() {
    let mem = "MemTotal: 1000 kB\nMemFree: 100 kB";
    assert_eq!(extract_mem_value(mem, "MemFree"), 100);
    assert_eq!(extract_mem_value(mem, "Cached"), 0);
}

#[test]
fn cpu_usage_fills_missing_cores() {
    let (total, cores) = parse_cpu_usage("cpu 50.0", 3);
    assert_eq!(total.parse::<f64>().unwrap(), 50.0);
    assert_eq!(cores, vec!["50.0".to_string(); 3]);
    let (_, cores) = parse_cpu_usage("cpu 50.0\ncpu0 40.0", 3);
    assert_eq!(cores, vec!["40.0".to_string()]);
}
