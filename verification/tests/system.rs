use oom_tui::system::{cpu_model, os_version, total_ram, DeviceInfo};

#[test]
fn ram_is_read_from_meminfo_in_gibibytes() {
    assert_eq!(total_ram("MemTotal:       16314292 kB\nMemFree: 1 kB\n").as_deref(), Some("15.6 GiB"));
    assert_eq!(total_ram("MemFree: 1 kB\n"), None);
    assert_eq!(total_ram("MemTotal: lots\n"), None);
    for kb in [8_388_608u64, 16_314_292, 1, 52_428] {
        let text = format!("MemTotal: {kb} kB\n");
        assert_eq!(total_ram(&text), Some(format!("{:.1} GiB", kb as f64 / 1024.0 / 1024.0)));
    }
}

#[test]
fn cpu_model_takes_the_first_model_or_hardware_line() {
    let x86 = "processor\t: 0\nmodel name\t: Intel(R) Core(TM) i7  \nmodel name\t: other\n";
    assert_eq!(cpu_model(x86).as_deref(), Some("Intel(R) Core(TM) i7"));
    assert_eq!(cpu_model("Hardware\t: BCM2835\n").as_deref(), Some("BCM2835"));
    assert_eq!(cpu_model("processor\t: 0\n"), None);
}

#[test]
fn os_version_unquotes_the_pretty_name() {
    let release = "NAME=\"Debian\"\nPRETTY_NAME=\"Debian GNU/Linux 12 (bookworm)\"\n";
    assert_eq!(os_version(release).as_deref(), Some("Debian GNU/Linux 12 (bookworm)"));
    assert_eq!(os_version("PRETTY_NAME=Arch\n").as_deref(), Some("Arch"));
    assert_eq!(os_version("PRETTY_NAME=\"\"\n").as_deref(), Some(""));
    assert_eq!(os_version("ID=arch\n"), None);
}

#[test]
fn missing_files_are_reported_as_unavailable() {
    let d = DeviceInfo::detect(None, Some("model name\t: Z80\n".to_string()), Some("ID=x\n".to_string()));
    assert_eq!(d.ram, "RAM unavailable");
    assert_eq!(d.cpu, "Z80");
    assert_eq!(d.os, "OS unavailable");
}
