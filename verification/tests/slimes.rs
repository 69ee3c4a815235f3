use slimes::devices::{command_output_text, lspci_device_names, wmic_device_names, DeviceClass};
use slimes::slimes::{
    dedup_names, max_frequency_mhz, AudioSlime, BoardReading, BoardSlime, CpuReading, CpuSlime,
    GpuSlime, HostnameSlime, KernelSlime, MonitorReading, MonitorSlime, NetworkSlime, OsSlime,
    RamSlime, SlimeColor,
};

const LSPCI: &str = "00:00.0 Host bridge: Intel Corporation Device 4660 (rev 02)\n\
00:02.0 VGA compatible controller: Intel Corporation Raptor Lake-S GT1 [UHD Graphics 770] (rev 04)\n\
01:00.0 VGA compatible controller: Advanced Micro Devices, Inc. [AMD/ATI] Navi 31 [Radeon RX 7900 XT/7900 XTX] (rev c8)\n\
03:00.0 Ethernet controller: Realtek Semiconductor Co., Ltd. RTL8125 2.5GbE Controller (rev 05)  \n\
04:00.0 Network controller: Intel Corporation Wi-Fi 6E(802.11ax) AX210/AX1675* 2x2 [Typhoon Peak] (rev 1a)\n";

fn strings(v: &[&str]) -> Vec<String> {
    v.iter().map(|s| s.to_string()).collect()
}

#[test]
fn os_kernel_and_hostname_fall_back_to_unknown() {
    assert_eq!(OsSlime.values(Some("Linux 24.04 Ubuntu".to_string())), strings(&["Linux 24.04 Ubuntu"]));
    assert_eq!(OsSlime.values(None), strings(&["Unknown"]));
    assert_eq!(KernelSlime.values(Some("6.8.0".to_string())), strings(&["6.8.0"]));
    assert_eq!(KernelSlime.values(None), strings(&["Unknown"]));
    assert_eq!(HostnameSlime.values(None), strings(&["Unknown"]));
    assert_eq!(HostnameSlime.values(Some("box".to_string())), strings(&["box"]));
}

#[test]
fn labels_icons_and_colors() {
    assert_eq!(OsSlime.label(), "OS");
    assert_eq!(OsSlime.icon(), "\u{f36c}");
    assert_eq!(OsSlime.color(), SlimeColor::Blue);
    assert_eq!(KernelSlime.label(), "Kernel");
    assert_eq!(HostnameSlime.label(), "Hostname");
    assert_eq!(CpuSlime.label(), "CPU");
    assert_eq!(CpuSlime.color(), SlimeColor::Yellow);
    assert_eq!(RamSlime.label(), "RAM");
    assert_eq!(RamSlime.color(), SlimeColor::Magenta);
    assert_eq!(BoardSlime.label(), "Board");
    assert_eq!(BoardSlime.color(), SlimeColor::Green);
    assert_eq!(GpuSlime.label(), "GPU");
    assert_eq!(GpuSlime.icon(), "\u{f08ae}");
    assert_eq!(GpuSlime.color(), SlimeColor::Cyan);
    assert_eq!(MonitorSlime.label(), "Monitors");
    assert_eq!(NetworkSlime.label(), "Network");
    assert_eq!(NetworkSlime.color(), SlimeColor::Cyan);
    assert_eq!(AudioSlime.label(), "Audio");
    assert_eq!(AudioSlime.color(), SlimeColor::Red);
}

#[test]
fn cpu_line_uses_first_brand_and_highest_frequency() {
    let cpus = vec![
        CpuReading { brand: "AMD Ryzen 9 7950X".to_string(), frequency: 4500 },
        CpuReading { brand: "other".to_string(), frequency: 5700 },
        CpuReading { brand: "other".to_string(), frequency: 3000 },
    ];
    assert_eq!(max_frequency_mhz(&cpus), 5700);
    assert_eq!(CpuSlime.values(&cpus, "5.70"), strings(&["AMD Ryzen 9 7950X @ ~5.70GHz"]));
    assert_eq!(max_frequency_mhz(&Vec::new()), 0);
    assert_eq!(CpuSlime.values(&Vec::new(), "0.00"), strings(&["Unknown"]));
}

#[test]
fn ram_line_is_in_whole_megabytes() {
    let gib = 1024 * 1024 * 1024;
    assert_eq!(RamSlime.values(16 * gib, 4 * gib + 1024 * 1024 - 1), strings(&["4096MB / 16384MB"]));
    assert_eq!(RamSlime.values(0, 0), strings(&["0MB / 0MB"]));
}

#[test]
fn board_line_joins_the_known_parts() {
    let board = BoardReading {
        vendor_name: Some("ASUSTeK COMPUTER INC.".to_string()),
        version: Some("Rev 1.xx".to_string()),
        name: Some("PRIME B650-PLUS".to_string()),
    };
    assert_eq!(BoardSlime.values(Some(board)), strings(&["ASUSTeK COMPUTER INC. Rev 1.xx PRIME B650-PLUS"]));
    let placeholder = BoardReading {
        vendor_name: Some("Micro-Star".to_string()),
        version: Some("Default string".to_string()),
        name: Some(String::new()),
    };
    assert_eq!(BoardSlime.values(Some(placeholder)), strings(&["Micro-Star"]));
    let empty = BoardReading { vendor_name: None, version: Some(String::new()), name: None };
    assert_eq!(BoardSlime.values(Some(empty)), strings(&["Unknown Model"]));
    assert_eq!(BoardSlime.values(None), strings(&["Unknown Model"]));
}

#[test]
fn monitor_lines() {
    let displays = Some(vec![
        MonitorReading { friendly_name: "DELL U2720Q".to_string(), width: 3840, height: 2160, frequency: "60".to_string(), is_primary: true },
        MonitorReading { friendly_name: "HP".to_string(), width: 1920, height: 1080, frequency: "143.98".to_string(), is_primary: false },
    ]);
    assert_eq!(
        MonitorSlime.values(&displays),
        strings(&["DELL U2720Q 3840x2160 @ 60Hz [Primary]", "HP 1920x1080 @ 143.98Hz [External]"])
    );
    assert_eq!(MonitorSlime.values(&None), strings(&["No monitors found"]));
    assert_eq!(MonitorSlime.values(&Some(Vec::new())), Vec::<String>::new());
}

#[test]
fn gpu_names_from_lspci() {
    assert_eq!(
        GpuSlime.values_from_lspci_text(LSPCI),
        strings(&[
            "Intel Corporation Device 4660 (rev 02)",
            "Intel Corporation Raptor Lake-S GT1 [UHD Graphics 770] (rev 04)",
            "AMD Navi 31 [Radeon RX 7900 XT/7900 XTX] (rev c8)",
            "Realtek Semiconductor Co., Ltd. RTL8125 2.5GbE Controller (rev 05)  ",
            "Intel Corporation Wi-Fi 6E(802.11ax) AX210/AX1675* 2x2 [Typhoon Peak] (rev 1a)",
        ])
    );
}

#[test]
fn grep_filtered_lspci_lines() {
    let gpu_only = "00:02.0 VGA compatible controller: Intel Corporation UHD Graphics 630\n";
    assert_eq!(GpuSlime.values_from_lspci_text(gpu_only), strings(&["Intel Corporation UHD Graphics 630"]));
    assert_eq!(GpuSlime.values_from_lspci_text(""), strings(&["Unknown GPU"]));
    assert_eq!(GpuSlime.values_from_lspci_text("no separator here\n"), strings(&["Unknown GPU"]));
    let net = "03:00.0 Ethernet controller: Realtek RTL8125  \r\n";
    assert_eq!(NetworkSlime.values_from_lspci_text(net), strings(&["Realtek RTL8125"]));
    assert_eq!(NetworkSlime.values_from_lspci_text(""), strings(&["Unknown Network Controller"]));
}

#[test]
fn audio_names_are_shortened_and_deduplicated() {
    let audio = "03:00.1 Audio device: Advanced Micro Devices, Inc. [AMD/ATI] Navi 31 HDMI/DP Audio \n\
                 0c:00.6 Audio device: Advanced Micro Devices, Inc. [AMD] Family 17h HD Audio Controller\n\
                 0c:00.7 Audio device: Advanced Micro Devices, Inc. [AMD] Family 17h HD Audio Controller\n";
    assert_eq!(
        AudioSlime.values_from_lspci_text(audio),
        strings(&["AMD Navi 31 HDMI/DP Audio", "AMD Family 17h HD Audio Controller"])
    );
    assert_eq!(AudioSlime.values_from_lspci_text(""), strings(&["No hardware audio found"]));
}

#[test]
fn wmic_names_skip_the_header_and_blank_lines() {
    let gpus = "Name\r\nNVIDIA GeForce RTX 4090  \r\n\r\nIntel(R) UHD Graphics 770\r\n\r\n";
    assert_eq!(GpuSlime.values_from_wmic_text(gpus), strings(&["NVIDIA GeForce RTX 4090", "Intel(R) UHD Graphics 770"]));
    assert_eq!(GpuSlime.values_from_wmic_text("Name\r\n"), strings(&["Unknown GPU"]));
    assert_eq!(NetworkSlime.values_from_wmic_text(""), strings(&["Unknown Network Controller"]));
    let audio = "Name\r\nRealtek High Definition Audio\r\nMicrosoft Streaming Service Proxy\r\nRealtek High Definition Audio\r\n";
    assert_eq!(AudioSlime.values_from_wmic_text(audio), strings(&["Realtek High Definition Audio"]));
    assert_eq!(AudioSlime.values_from_wmic_text("Name\r\nMicrosoft Streaming Service Proxy\r\n"), strings(&["No hardware audio found"]));
}

#[test]
fn listings_for_a_device_class() {
    assert_eq!(lspci_device_names("a: b\nc\nd: e: f\n", DeviceClass::Gpu), strings(&["b", "e: f"]));
    assert_eq!(wmic_device_names("Name\n x \ny\n", Some("y")), strings(&["x"]));
    assert_eq!(wmic_device_names("x", None), Vec::<String>::new());
}

#[test]
fn command_output_is_decoded() {
    assert_eq!(command_output_text(b"Intel\xffGPU"), "Intel\u{fffd}GPU");
    assert_eq!(command_output_text("h\u{e9}".as_bytes()), "h\u{e9}");
    let out = b"00:02.0 VGA compatible controller: Intel\xff UHD\n";
    assert_eq!(GpuSlime.values_from_lspci(out), strings(&["Intel\u{fffd} UHD"]));
    assert_eq!(NetworkSlime.values_from_lspci(b""), strings(&["Unknown Network Controller"]));
    assert_eq!(AudioSlime.values_from_lspci(b"x: Audio\nx: Audio\n"), strings(&["Audio"]));
    assert_eq!(GpuSlime.values_from_wmic(b"Name\r\nGPU\r\n"), strings(&["GPU"]));
    assert_eq!(NetworkSlime.values_from_wmic(b"Name\r\nNIC\r\n"), strings(&["NIC"]));
    assert_eq!(AudioSlime.values_from_wmic(b"Name\r\nA\r\nA\r\n"), strings(&["A"]));
}

#[test]
fn dedup_removes_only_adjacent_repeats() {
    assert_eq!(dedup_names(strings(&["a", "a", "b", "a", "a"])), strings(&["a", "b", "a"]));
    assert_eq!(dedup_names(Vec::new()), Vec::<String>::new());
    let mut v = strings(&["x", "x", "y"]);
    v.dedup();
    assert_eq!(dedup_names(strings(&["x", "x", "y"])), v);
}
