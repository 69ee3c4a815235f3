//! The system information "slimes": each one names a part of the machine and turns
//! what was read of it into the lines shown next to its label.
//!
//! Reading the machine (the operating system, `lspci` or `wmic`, the displays) is the
//! program's work; the slimes here get what was read as plain values.
use crate::devices::{
    after_separator, device_lines, lemma_lspci_device_lines, lemma_wmic_names, amd_ati_vendor,
    amd_short, amd_vendor, command_output_text, lspci_device_names, lspci_names, utf8_lossy, wmic_device_names,
    wmic_names, DeviceClass,
};
use crate::text::{
    append_chars, char_vec_views, chars_equal, chars_of, decimal, join_words, join_with_spaces,
    push_decimal, string_from_chars, string_of, string_views, starts_with, ends_with,
    lemma_join_words_ends, replace_all, trim, lines,
};
use vstd::prelude::*;

verus! {

broadcast use vstd::string::group_string_axioms;

/// The color a slime's icon and label are shown in.
#[derive(Clone, Copy, Debug, PartialEq, Eq, Structural)]
pub enum SlimeColor {
    Blue,
    Yellow,
    Magenta,
    Green,
    Cyan,
    Red,
}

/// A list of one line.
fn single_line(line: String) -> (values: Vec<String>)
    ensures
        string_views(values@) == seq![line@],
{
    let mut values: Vec<String> = Vec::new();
    values.push(line);
    assert(string_views(values@) =~= seq![line@]);
    values
}

/// The reported text, or "Unknown" when nothing was reported.
pub open spec fn reported_or_unknown(reported: Option<String>) -> Seq<char> {
    match reported {
        Some(text) => text@,
        None => "Unknown"@,
    }
}

fn value_or_unknown(reported: Option<String>) -> (values: Vec<String>)
    ensures
        string_views(values@) == seq![reported_or_unknown(reported)],
{
    match reported {
        Some(text) => single_line(text),
        None => single_line(string_of("Unknown")),
    }
}

// ---------------------------------------------------------------------------
// OS, kernel, hostname
// ---------------------------------------------------------------------------

/// OS name
pub struct OsSlime;

impl OsSlime {
    pub fn label(&self) -> (label: &'static str)
        ensures
            label@ == "OS"@,
    {
        "OS"
    }

    pub fn icon(&self) -> (icon: &'static str)
        ensures
            icon@ == "\u{f36c}"@,
    {
        "\u{f36c}"
    }

    pub fn color(&self) -> (color: SlimeColor)
        ensures
            color == SlimeColor::Blue,
    {
        SlimeColor::Blue
    }

    /// The line for the operating system's long version, as the system reported it.
    pub fn values(&self, long_os_version: Option<String>) -> (values: Vec<String>)
        ensures
            string_views(values@) == seq![reported_or_unknown(long_os_version)],
    {
        value_or_unknown(long_os_version)
    }
}

/// Kernel version
pub struct KernelSlime;

impl KernelSlime {
    pub fn label(&self) -> (label: &'static str)
        ensures
            label@ == "Kernel"@,
    {
        "Kernel"
    }

    pub fn icon(&self) -> (icon: &'static str)
        ensures
            icon@ == "\u{f013}"@,
    {
        "\u{f013}"
    }

    pub fn color(&self) -> (color: SlimeColor)
        ensures
            color == SlimeColor::Blue,
    {
        SlimeColor::Blue
    }

    /// The line for the kernel version, as the system reported it.
    pub fn values(&self, kernel_version: Option<String>) -> (values: Vec<String>)
        ensures
            string_views(values@) == seq![reported_or_unknown(kernel_version)],
    {
        value_or_unknown(kernel_version)
    }
}

/// Hostname
pub struct HostnameSlime;

impl HostnameSlime {
    pub fn label(&self) -> (label: &'static str)
        ensures
            label@ == "Hostname"@,
    {
        "Hostname"
    }

    pub fn icon(&self) -> (icon: &'static str)
        ensures
            icon@ == "\u{f048b}"@,
    {
        "\u{f048b}"
    }

    pub fn color(&self) -> (color: SlimeColor)
        ensures
            color == SlimeColor::Blue,
    {
        SlimeColor::Blue
    }

    /// The line for the host name, as the system reported it.
    pub fn values(&self, host_name: Option<String>) -> (values: Vec<String>)
        ensures
            string_views(values@) == seq![reported_or_unknown(host_name)],
    {
        value_or_unknown(host_name)
    }
}

// ---------------------------------------------------------------------------
// CPU
// ---------------------------------------------------------------------------

/// What is read of one logical CPU: its brand and its frequency in MHz.
pub struct CpuReading {
    pub brand: String,
    pub frequency: u64,
}

/// The highest frequency among the CPUs, 0 when there is none.
pub open spec fn max_frequency(cpus: Seq<CpuReading>) -> nat
    decreases cpus.len(),
{
    if cpus.len() == 0 {
        0
    } else {
        let rest = max_frequency(cpus.drop_last());
        if cpus.last().frequency > rest {
            cpus.last().frequency as nat
        } else {
            rest
        }
    }
}

/// The highest frequency is that of one of the CPUs, and no CPU's is higher.
pub proof fn lemma_max_frequency(cpus: Seq<CpuReading>)
    ensures
        forall|i: int| 0 <= i < cpus.len() ==> #[trigger] cpus[i].frequency <= max_frequency(cpus),
        cpus.len() > 0 ==> exists|i: int|
            0 <= i < cpus.len() && #[trigger] cpus[i].frequency == max_frequency(cpus),
        cpus.len() == 0 ==> max_frequency(cpus) == 0,
    decreases cpus.len(),
{
    if cpus.len() > 0 {
        let rest = cpus.drop_last();
        lemma_max_frequency(rest);
        assert forall|i: int| 0 <= i < cpus.len() implies #[trigger] cpus[i].frequency
            <= max_frequency(cpus) by {
            if i < rest.len() {
                assert(rest[i].frequency == cpus[i].frequency);
            }
        }
        if cpus.last().frequency > max_frequency(rest) {
            assert(cpus[cpus.len() - 1].frequency == max_frequency(cpus));
        } else if rest.len() > 0 {
            let k = choose|i: int| 0 <= i < rest.len() && #[trigger] rest[i].frequency == max_frequency(rest);
            assert(cpus[k].frequency == max_frequency(cpus));
        } else {
            assert(cpus[0].frequency == max_frequency(cpus));
        }
    }
}

/// The highest frequency found among all the CPUs, in MHz (0 when there is none).
pub fn max_frequency_mhz(cpus: &Vec<CpuReading>) -> (mhz: u64)
    ensures
        mhz == max_frequency(cpus@),
        forall|i: int| 0 <= i < cpus.len() ==> #[trigger] cpus@[i].frequency <= mhz,
        cpus.len() > 0 ==> exists|i: int| 0 <= i < cpus.len() && #[trigger] cpus@[i].frequency == mhz,
        cpus.len() == 0 ==> mhz == 0,
{
    let mut mhz: u64 = 0;
    let mut i: usize = 0;
    while i < cpus.len()
        invariant
            i <= cpus.len(),
            mhz == max_frequency(cpus@.take(i as int)),
        decreases cpus.len() - i,
    {
        assert(cpus@.take(i + 1).drop_last() =~= cpus@.take(i as int));
        if cpus[i].frequency > mhz {
            mhz = cpus[i].frequency;
        }
        i = i + 1;
    }
    assert(cpus@.take(i as int) =~= cpus@);
    proof {
        lemma_max_frequency(cpus@);
    }
    mhz
}

/// The CPU line: the first CPU's brand and the highest frequency, or "Unknown"
/// when no CPU was found.
pub open spec fn cpu_values(cpus: Seq<CpuReading>, frequency_ghz: Seq<char>) -> Seq<Seq<char>> {
    if cpus.len() == 0 {
        seq!["Unknown"@]
    } else {
        seq![cpus[0].brand@ + " @ ~"@ + frequency_ghz + "GHz"@]
    }
}

/// CPU name with highest frequency found in all cores
pub struct CpuSlime;

impl CpuSlime {
    pub fn label(&self) -> (label: &'static str)
        ensures
            label@ == "CPU"@,
    {
        "CPU"
    }

    pub fn icon(&self) -> (icon: &'static str)
        ensures
            icon@ == "\u{f4bc}"@,
    {
        "\u{f4bc}"
    }

    pub fn color(&self) -> (color: SlimeColor)
        ensures
            color == SlimeColor::Yellow,
    {
        SlimeColor::Yellow
    }

    /// The CPU line, with `frequency_ghz` the highest frequency (see
    /// `max_frequency_mhz`) written in GHz with two decimals.
    pub fn values(&self, cpus: &Vec<CpuReading>, frequency_ghz: &str) -> (values: Vec<String>)
        ensures
            string_views(values@) == cpu_values(cpus@, frequency_ghz@),
    {
        if cpus.len() == 0 {
            return single_line(string_of("Unknown"));
        }
        let mut line = chars_of(cpus[0].brand.as_str());
        append_chars(&mut line, &chars_of(" @ ~"));
        append_chars(&mut line, &chars_of(frequency_ghz));
        append_chars(&mut line, &chars_of("GHz"));
        single_line(string_from_chars(&line))
    }
}

// ---------------------------------------------------------------------------
// RAM
// ---------------------------------------------------------------------------

/// A number of bytes in whole mebibytes.
pub open spec fn whole_megabytes(bytes: u64) -> nat {
    (bytes / 1024 / 1024) as nat
}

/// The memory line: used over total, in whole MB.
pub open spec fn ram_line(total_memory: u64, used_memory: u64) -> Seq<char> {
    decimal(whole_megabytes(used_memory)) + "MB / "@ + decimal(whole_megabytes(total_memory))
        + "MB"@
}

/// RAM usage over available
pub struct RamSlime;

impl RamSlime {
    pub fn label(&self) -> (label: &'static str)
        ensures
            label@ == "RAM"@,
    {
        "RAM"
    }

    pub fn icon(&self) -> (icon: &'static str)
        ensures
            icon@ == "\u{e266}"@,
    {
        "\u{e266}"
    }

    pub fn color(&self) -> (color: SlimeColor)
        ensures
            color == SlimeColor::Magenta,
    {
        SlimeColor::Magenta
    }

    /// The memory line, from the total and used memory in bytes.
    pub fn values(&self, total_memory: u64, used_memory: u64) -> (values: Vec<String>)
        ensures
            string_views(values@) == seq![ram_line(total_memory, used_memory)],
    {
        let total_ram = total_memory / 1024 / 1024;
        let used_ram = used_memory / 1024 / 1024;
        let mut line: Vec<char> = Vec::new();
        push_decimal(used_ram, &mut line);
        append_chars(&mut line, &chars_of("MB / "));
        push_decimal(total_ram, &mut line);
        append_chars(&mut line, &chars_of("MB"));
        assert(line@ =~= ram_line(total_memory, used_memory));
        single_line(string_from_chars(&line))
    }
}

// ---------------------------------------------------------------------------
// Board
// ---------------------------------------------------------------------------

/// What is read of the motherboard.
pub struct BoardReading {
    pub vendor_name: Option<String>,
    pub version: Option<String>,
    pub name: Option<String>,
}

/// The placeholder version that boards without a real one report.
pub open spec fn placeholder_board_version() -> Seq<char> {
    "Default string"@
}

/// A part of the board's name, kept when it was reported and is not empty.
pub open spec fn board_part(part: Option<String>) -> Seq<Seq<char>> {
    match part {
        Some(text) => if text@.len() > 0 {
            seq![text@]
        } else {
            seq![]
        },
        None => seq![],
    }
}

/// The board's version, kept unless it is the placeholder version.
pub open spec fn board_version_part(version: Option<String>) -> Seq<Seq<char>> {
    match version {
        Some(text) => if text@ != placeholder_board_version() {
            board_part(Some(text))
        } else {
            seq![]
        },
        None => seq![],
    }
}

/// The board line: vendor, version and name, those that are known, separated by
/// spaces; "Unknown Model" when none is known or no board was found.
pub open spec fn board_line(board: Option<BoardReading>) -> Seq<char> {
    match board {
        None => "Unknown Model"@,
        Some(b) => {
            let parts = board_part(b.vendor_name) + board_version_part(b.version) + board_part(
                b.name,
            );
            if parts.len() == 0 {
                "Unknown Model"@
            } else {
                join_words(parts)
            }
        },
    }
}

/// Appends a reported part to the parts of the board's name, unless it is empty.
fn push_board_part(parts: &mut Vec<Vec<char>>, part: &Option<String>)
    ensures
        char_vec_views(final(parts)@) == char_vec_views(old(parts)@) + board_part(*part),
{
    match part {
        Some(text) => {
            let chars = chars_of(text.as_str());
            if chars.len() > 0 {
                parts.push(chars);
            }
        },
        None => {},
    }
    assert(char_vec_views(parts@) =~= char_vec_views(old(parts)@) + board_part(*part));
}

/// Motherboard / chassis
pub struct BoardSlime;

impl BoardSlime {
    pub fn label(&self) -> (label: &'static str)
        ensures
            label@ == "Board"@,
    {
        "Board"
    }

    pub fn icon(&self) -> (icon: &'static str)
        ensures
            icon@ == "\u{f109}"@,
    {
        "\u{f109}"
    }

    pub fn color(&self) -> (color: SlimeColor)
        ensures
            color == SlimeColor::Green,
    {
        SlimeColor::Green
    }

    /// The board line, from what was read of the motherboard (`None` when none was found).
    pub fn values(&self, board: Option<BoardReading>) -> (values: Vec<String>)
        ensures
            string_views(values@) == seq![board_line(board)],
    {
        match board {
            None => single_line(string_of("Unknown Model")),
            Some(b) => {
                let mut parts: Vec<Vec<char>> = Vec::new();
                assert(char_vec_views(parts@) =~= Seq::<Seq<char>>::empty());
                push_board_part(&mut parts, &b.vendor_name);
                let keep_version = match &b.version {
                    Some(text) => !chars_equal(&chars_of(text.as_str()), &chars_of("Default string")),
                    None => false,
                };
                if keep_version {
                    push_board_part(&mut parts, &b.version);
                } else {
                    assert(char_vec_views(parts@) =~= char_vec_views(parts@) + board_version_part(
                        b.version,
                    ));
                }
                push_board_part(&mut parts, &b.name);
                if parts.len() == 0 {
                    single_line(string_of("Unknown Model"))
                } else {
                    single_line(string_from_chars(&join_with_spaces(&parts)))
                }
            },
        }
    }
}

// ---------------------------------------------------------------------------
// Monitors
// ---------------------------------------------------------------------------

/// What is read of one display; `frequency` is its refresh rate as the display
/// library writes it.
pub struct MonitorReading {
    pub friendly_name: String,
    pub width: u32,
    pub height: u32,
    pub frequency: String,
    pub is_primary: bool,
}

/// The line for one display: name, resolution, refresh rate and whether it is the primary one.
pub open spec fn monitor_line(m: MonitorReading) -> Seq<char> {
    m.friendly_name@ + " "@ + decimal(m.width as nat) + "x"@ + decimal(m.height as nat) + " @ "@
        + m.frequency@ + "Hz "@ + if m.is_primary {
        "[Primary]"@
    } else {
        "[External]"@
    }
}

/// The monitor lines: one per display, or "No monitors found" when the displays
/// could not be listed.
pub open spec fn monitor_values(displays: Option<Vec<MonitorReading>>) -> Seq<Seq<char>> {
    match displays {
        Some(ds) => ds@.map_values(|m: MonitorReading| monitor_line(m)),
        None => seq!["No monitors found"@],
    }
}

fn monitor_line_exec(m: &MonitorReading) -> (line: String)
    ensures
        line@ == monitor_line(*m),
{
    let mut line = chars_of(m.friendly_name.as_str());
    append_chars(&mut line, &chars_of(" "));
    push_decimal(m.width as u64, &mut line);
    append_chars(&mut line, &chars_of("x"));
    push_decimal(m.height as u64, &mut line);
    append_chars(&mut line, &chars_of(" @ "));
    append_chars(&mut line, &chars_of(m.frequency.as_str()));
    append_chars(&mut line, &chars_of("Hz "));
    if m.is_primary {
        append_chars(&mut line, &chars_of("[Primary]"));
    } else {
        append_chars(&mut line, &chars_of("[External]"));
    }
    assert(line@ =~= monitor_line(*m));
    string_from_chars(&line)
}

/// Monitors
pub struct MonitorSlime;

impl MonitorSlime {
    pub fn label(&self) -> (label: &'static str)
        ensures
            label@ == "Monitors"@,
    {
        "Monitors"
    }

    pub fn icon(&self) -> (icon: &'static str)
        ensures
            icon@ == "\u{f0379}"@,
    {
        "\u{f0379}"
    }

    pub fn color(&self) -> (color: SlimeColor)
        ensures
            color == SlimeColor::Blue,
    {
        SlimeColor::Blue
    }

    /// The monitor lines, from the displays that were listed (`None` when listing failed).
    pub fn values(&self, displays: &Option<Vec<MonitorReading>>) -> (values: Vec<String>)
        ensures
            string_views(values@) == monitor_values(*displays),
    {
        match displays {
            None => single_line(string_of("No monitors found")),
            Some(ds) => {
                let mut values: Vec<String> = Vec::new();
                let mut i: usize = 0;
                while i < ds.len()
                    invariant
                        i <= ds.len(),
                        string_views(values@) == ds@.take(i as int).map_values(
                            |m: MonitorReading| monitor_line(m),
                        ),
                    decreases ds.len() - i,
                {
                    let line = monitor_line_exec(&ds[i]);
                    let ghost before = values@;
                    values.push(line);
                    proof {
                        assert(ds@.take(i + 1) =~= ds@.take(i as int).push(ds@[i as int]));
                        assert(string_views(values@) =~= string_views(before).push(line@));
                    }
                    i = i + 1;
                    assert(string_views(values@) =~= ds@.take(i as int).map_values(
                        |m: MonitorReading| monitor_line(m),
                    ));
                }
                assert(ds@.take(i as int) =~= ds@);
                values
            },
        }
    }
}

// ---------------------------------------------------------------------------
// GPU, network and audio devices
// ---------------------------------------------------------------------------

/// The names found, or the one fallback line when none was found.
pub open spec fn names_or(names: Seq<Seq<char>>, fallback: Seq<char>) -> Seq<Seq<char>> {
    if names.len() == 0 {
        seq![fallback]
    } else {
        names
    }
}

fn names_or_fallback(names: Vec<String>, fallback: &str) -> (values: Vec<String>)
    ensures
        string_views(values@) == names_or(string_views(names@), fallback@),
{
    if names.len() == 0 {
        single_line(string_of(fallback))
    } else {
        names
    }
}

/// A sequence without the repeats of a name right after itself, as `Vec::dedup` leaves it.
pub open spec fn dedup_adjacent(names: Seq<Seq<char>>) -> Seq<Seq<char>>
    decreases names.len(),
{
    if names.len() == 0 {
        names
    } else {
        let kept = dedup_adjacent(names.drop_last());
        if kept.len() > 0 && kept.last() == names.last() {
            kept
        } else {
            kept.push(names.last())
        }
    }
}

/// After de-duplication no name follows itself, every name is one of the input's,
/// the last name is kept, and the list is empty only if the input was.
pub proof fn lemma_dedup_adjacent(names: Seq<Seq<char>>)
    ensures
        forall|i: int|
            0 <= i < dedup_adjacent(names).len() - 1 ==> #[trigger] dedup_adjacent(names)[i]
                != dedup_adjacent(names)[i + 1],
        forall|i: int|
            0 <= i < dedup_adjacent(names).len() ==> names.contains(
                #[trigger] dedup_adjacent(names)[i],
            ),
        names.len() > 0 ==> dedup_adjacent(names).len() > 0 && dedup_adjacent(names).last()
            == names.last(),
        dedup_adjacent(names).len() <= names.len(),
        forall|j: int| 0 <= j < names.len() ==> dedup_adjacent(names).contains(#[trigger] names[j]),
    decreases names.len(),
{
    if names.len() > 0 {
        let rest = names.drop_last();
        lemma_dedup_adjacent(rest);
        let kept = dedup_adjacent(rest);
        let all = dedup_adjacent(names);
        assert forall|i: int| 0 <= i < kept.len() implies names.contains(#[trigger] kept[i]) by {
            let j = choose|j: int| 0 <= j < rest.len() && rest[j] == kept[i];
            assert(names[j] == kept[i]);
        }
        assert(names[names.len() - 1] == names.last());
        assert forall|j: int| 0 <= j < names.len() implies all.contains(#[trigger] names[j]) by {
            if j == names.len() - 1 {
                assert(all[all.len() - 1] == names[j]);
            } else {
                assert(rest[j] == names[j]);
                assert(kept.contains(rest[j]));
                let k = choose|k: int| 0 <= k < kept.len() && kept[k] == rest[j];
                assert(all[k] == kept[k]);
            }
        }
    }
}

/// De-duplicating twice is de-duplicating once.
pub proof fn lemma_dedup_adjacent_idempotent(names: Seq<Seq<char>>)
    ensures
        dedup_adjacent(dedup_adjacent(names)) == dedup_adjacent(names),
{
    lemma_dedup_adjacent(names);
    lemma_dedup_without_repeats(dedup_adjacent(names));
}

/// A sequence in which no name follows itself is left as it is.
proof fn lemma_dedup_without_repeats(names: Seq<Seq<char>>)
    requires
        forall|i: int| 0 <= i < names.len() - 1 ==> #[trigger] names[i] != names[i + 1],
    ensures
        dedup_adjacent(names) == names,
    decreases names.len(),
{
    if names.len() > 0 {
        let rest = names.drop_last();
        assert forall|i: int| 0 <= i < rest.len() - 1 implies #[trigger] rest[i] != rest[i + 1] by {
            assert(names[i] != names[i + 1]);
        }
        lemma_dedup_without_repeats(rest);
        if rest.len() > 0 {
            assert(names[rest.len() - 1] != names[rest.len() as int]);
        }
        assert(rest.push(names.last()) =~= names);
    }
}

/// `names` without the repeats of a name right after itself.
pub fn dedup_names(names: Vec<String>) -> (kept: Vec<String>)
    ensures
        string_views(kept@) == dedup_adjacent(string_views(names@)),
{
    let ghost views = string_views(names@);
    let mut kept: Vec<String> = Vec::new();
    let mut i: usize = 0;
    assert(string_views(kept@) =~= dedup_adjacent(views.take(0)));
    while i < names.len()
        invariant
            i <= names.len(),
            views == string_views(names@),
            string_views(kept@) == dedup_adjacent(views.take(i as int)),
        decreases names.len() - i,
    {
        proof {
            assert(views.take(i + 1).drop_last() =~= views.take(i as int));
            assert(views.take(i + 1).last() == names@[i as int]@);
        }
        let repeat = kept.len() > 0 && kept[kept.len() - 1] == names[i];
        if !repeat {
            let ghost before = string_views(kept@);
            kept.push(names[i].clone());
            assert(string_views(kept@) =~= before.push(names@[i as int]@));
        }
        i = i + 1;
    }
    assert(views.take(i as int) =~= views);
    kept
}

/// The GPU lines for the text `lspci` printed.
pub open spec fn gpu_values_lspci(text: Seq<char>) -> Seq<Seq<char>> {
    names_or(lspci_names(crate::text::lines(text), DeviceClass::Gpu), "Unknown GPU"@)
}

/// The GPU lines for the text `wmic` printed.
pub open spec fn gpu_values_wmic(text: Seq<char>) -> Seq<Seq<char>> {
    names_or(wmic_names(text, None), "Unknown GPU"@)
}

/// GPUs
pub struct GpuSlime;

impl GpuSlime {
    pub fn label(&self) -> (label: &'static str)
        ensures
            label@ == "GPU"@,
    {
        "GPU"
    }

    pub fn icon(&self) -> (icon: &'static str)
        ensures
            icon@ == "\u{f08ae}"@,
    {
        "\u{f08ae}"
    }

    pub fn color(&self) -> (color: SlimeColor)
        ensures
            color == SlimeColor::Cyan,
    {
        SlimeColor::Cyan
    }

    /// The GPU lines for the text that `lspci` printed.
    pub fn values_from_lspci_text(&self, text: &str) -> (values: Vec<String>)
        ensures
            string_views(values@) == gpu_values_lspci(text@),
    {
        names_or_fallback(lspci_device_names(text, DeviceClass::Gpu), "Unknown GPU")
    }

    /// The GPU lines for the bytes that `lspci` wrote to its standard output.
    pub fn values_from_lspci(&self, stdout: &[u8]) -> (values: Vec<String>)
        ensures
            string_views(values@) == gpu_values_lspci(utf8_lossy(stdout@)),
    {
        let text = command_output_text(stdout);
        self.values_from_lspci_text(text.as_str())
    }

    /// The GPU lines for the text that `wmic` printed.
    pub fn values_from_wmic_text(&self, text: &str) -> (values: Vec<String>)
        ensures
            string_views(values@) == gpu_values_wmic(text@),
    {
        names_or_fallback(wmic_device_names(text, None), "Unknown GPU")
    }

    /// The GPU lines for the bytes that `wmic` wrote to its standard output.
    pub fn values_from_wmic(&self, stdout: &[u8]) -> (values: Vec<String>)
        ensures
            string_views(values@) == gpu_values_wmic(utf8_lossy(stdout@)),
    {
        let text = command_output_text(stdout);
        self.values_from_wmic_text(text.as_str())
    }
}

/// The network lines for the text `lspci` printed.
pub open spec fn network_values_lspci(text: Seq<char>) -> Seq<Seq<char>> {
    names_or(
        lspci_names(crate::text::lines(text), DeviceClass::Network),
        "Unknown Network Controller"@,
    )
}

/// The network lines for the text `wmic` printed.
pub open spec fn network_values_wmic(text: Seq<char>) -> Seq<Seq<char>> {
    names_or(wmic_names(text, None), "Unknown Network Controller"@)
}

/// Network (wifi/ethernet) hardware
pub struct NetworkSlime;

impl NetworkSlime {
    pub fn label(&self) -> (label: &'static str)
        ensures
            label@ == "Network"@,
    {
        "Network"
    }

    pub fn icon(&self) -> (icon: &'static str)
        ensures
            icon@ == "\u{f05a9}"@,
    {
        "\u{f05a9}"
    }

    pub fn color(&self) -> (color: SlimeColor)
        ensures
            color == SlimeColor::Cyan,
    {
        SlimeColor::Cyan
    }

    /// The network lines for the text that `lspci` printed.
    pub fn values_from_lspci_text(&self, text: &str) -> (values: Vec<String>)
        ensures
            string_views(values@) == network_values_lspci(text@),
    {
        names_or_fallback(
            lspci_device_names(text, DeviceClass::Network),
            "Unknown Network Controller",
        )
    }

    /// The network lines for the bytes that `lspci` wrote to its standard output.
    pub fn values_from_lspci(&self, stdout: &[u8]) -> (values: Vec<String>)
        ensures
            string_views(values@) == network_values_lspci(utf8_lossy(stdout@)),
    {
        let text = command_output_text(stdout);
        self.values_from_lspci_text(text.as_str())
    }

    /// The network lines for the text that `wmic` printed.
    pub fn values_from_wmic_text(&self, text: &str) -> (values: Vec<String>)
        ensures
            string_views(values@) == network_values_wmic(text@),
    {
        names_or_fallback(wmic_device_names(text, None), "Unknown Network Controller")
    }

    /// The network lines for the bytes that `wmic` wrote to its standard output.
    pub fn values_from_wmic(&self, stdout: &[u8]) -> (values: Vec<String>)
        ensures
            string_views(values@) == network_values_wmic(utf8_lossy(stdout@)),
    {
        let text = command_output_text(stdout);
        self.values_from_wmic_text(text.as_str())
    }
}

/// A Windows audio device that is not hardware.
pub open spec fn streaming_proxy_name() -> Seq<char> {
    "Microsoft Streaming Service Proxy"@
}

/// The audio lines: the names found, without repeats of a name right after itself,
/// or the fallback line when none was found.
pub open spec fn audio_values(names: Seq<Seq<char>>) -> Seq<Seq<char>> {
    if names.len() == 0 {
        seq!["No hardware audio found"@]
    } else {
        dedup_adjacent(names)
    }
}

/// The audio lines for the text `lspci` printed.
pub open spec fn audio_values_lspci(text: Seq<char>) -> Seq<Seq<char>> {
    audio_values(lspci_names(crate::text::lines(text), DeviceClass::Audio))
}

/// The audio lines for the text `wmic` printed.
pub open spec fn audio_values_wmic(text: Seq<char>) -> Seq<Seq<char>> {
    audio_values(wmic_names(text, Some(streaming_proxy_name())))
}

fn audio_values_exec(names: Vec<String>) -> (values: Vec<String>)
    ensures
        string_views(values@) == audio_values(string_views(names@)),
{
    if names.len() == 0 {
        single_line(string_of("No hardware audio found"))
    } else {
        dedup_names(names)
    }
}

/// Audio hardware
pub struct AudioSlime;

impl AudioSlime {
    pub fn label(&self) -> (label: &'static str)
        ensures
            label@ == "Audio"@,
    {
        "Audio"
    }

    pub fn icon(&self) -> (icon: &'static str)
        ensures
            icon@ == "\u{f04c3}"@,
    {
        "\u{f04c3}"
    }

    pub fn color(&self) -> (color: SlimeColor)
        ensures
            color == SlimeColor::Red,
    {
        SlimeColor::Red
    }

    /// The audio lines for the text that `lspci` printed.
    pub fn values_from_lspci_text(&self, text: &str) -> (values: Vec<String>)
        ensures
            string_views(values@) == audio_values_lspci(text@),
    {
        audio_values_exec(lspci_device_names(text, DeviceClass::Audio))
    }

    /// The audio lines for the bytes that `lspci` wrote to its standard output.
    pub fn values_from_lspci(&self, stdout: &[u8]) -> (values: Vec<String>)
        ensures
            string_views(values@) == audio_values_lspci(utf8_lossy(stdout@)),
    {
        let text = command_output_text(stdout);
        self.values_from_lspci_text(text.as_str())
    }

    /// The audio lines for the text that `wmic` printed.
    pub fn values_from_wmic_text(&self, text: &str) -> (values: Vec<String>)
        ensures
            string_views(values@) == audio_values_wmic(text@),
    {
        audio_values_exec(
            wmic_device_names(text, Some("Microsoft Streaming Service Proxy")),
        )
    }

    /// The audio lines for the bytes that `wmic` wrote to its standard output.
    pub fn values_from_wmic(&self, stdout: &[u8]) -> (values: Vec<String>)
        ensures
            string_views(values@) == audio_values_wmic(utf8_lossy(stdout@)),
    {
        let text = command_output_text(stdout);
        self.values_from_wmic_text(text.as_str())
    }
}

// ---------------------------------------------------------------------------
// Laws of the slimes' lines
// ---------------------------------------------------------------------------

/// Every `lspci` line naming a device gives one network line, in order: the `k`-th
/// line is the trimmed text after the first ": " of the `k`-th such line; with no
/// such line there is the one fallback line.
pub proof fn lemma_network_lines(text: Seq<char>)
    ensures
        device_lines(text).len() == 0 ==> network_values_lspci(text) == seq![
            "Unknown Network Controller"@,
        ],
        device_lines(text).len() > 0 ==> network_values_lspci(text).len() == device_lines(
            text,
        ).len(),
        device_lines(text).len() > 0 ==> forall|k: int|
            0 <= k < device_lines(text).len() ==> #[trigger] network_values_lspci(text)[k] == trim(
                after_separator(device_lines(text)[k]),
            ),
{
    lemma_lspci_device_lines(text, DeviceClass::Network);
}

/// Every `lspci` line naming a device gives one GPU line, in order: the `k`-th line
/// is the text after the first ": " of the `k`-th such line, with the long AMD
/// graphics vendor name shortened; with no such line there is the one fallback line.
pub proof fn lemma_gpu_lines(text: Seq<char>)
    ensures
        device_lines(text).len() == 0 ==> gpu_values_lspci(text) == seq!["Unknown GPU"@],
        device_lines(text).len() > 0 ==> gpu_values_lspci(text).len() == device_lines(text).len(),
        device_lines(text).len() > 0 ==> forall|k: int|
            0 <= k < device_lines(text).len() ==> #[trigger] gpu_values_lspci(text)[k]
                == replace_all(after_separator(device_lines(text)[k]), amd_ati_vendor(), amd_short()),
{
    lemma_lspci_device_lines(text, DeviceClass::Gpu);
}

/// The audio name shown for an `lspci` line.
pub open spec fn audio_name(line: Seq<char>) -> Seq<char> {
    replace_all(
        replace_all(trim(after_separator(line)), amd_ati_vendor(), amd_short()),
        amd_vendor(),
        amd_short(),
    )
}

/// The audio lines of an `lspci` listing: every audio line is the shown name of a
/// line naming a device, every such line's name is among the audio lines, and no
/// line repeats the one before it; with no such line there is the one fallback line.
pub proof fn lemma_audio_lines(text: Seq<char>)
    ensures
        device_lines(text).len() == 0 ==> audio_values_lspci(text) == seq![
            "No hardware audio found"@,
        ],
        device_lines(text).len() > 0 ==> forall|i: int|
            0 <= i < audio_values_lspci(text).len() ==> exists|k: int|
                0 <= k < device_lines(text).len() && #[trigger] audio_values_lspci(text)[i]
                    == audio_name(device_lines(text)[k]),
        device_lines(text).len() > 0 ==> forall|k: int|
            0 <= k < device_lines(text).len() ==> audio_values_lspci(text).contains(
                audio_name(#[trigger] device_lines(text)[k]),
            ),
        forall|i: int|
            0 <= i < audio_values_lspci(text).len() - 1 ==> #[trigger] audio_values_lspci(text)[i]
                != audio_values_lspci(text)[i + 1],
{
    let names = lspci_names(lines(text), DeviceClass::Audio);
    lemma_lspci_device_lines(text, DeviceClass::Audio);
    lemma_dedup_adjacent(names);
    if names.len() > 0 {
        let values = audio_values_lspci(text);
        assert forall|i: int| 0 <= i < values.len() implies exists|k: int|
            0 <= k < device_lines(text).len() && #[trigger] values[i] == audio_name(
                device_lines(text)[k],
            ) by {
            let k = choose|k: int| 0 <= k < names.len() && names[k] == values[i];
            assert(names[k] == audio_name(device_lines(text)[k]));
        }
        assert forall|k: int| 0 <= k < device_lines(text).len() implies values.contains(
            audio_name(#[trigger] device_lines(text)[k]),
        ) by {
            assert(names[k] == audio_name(device_lines(text)[k]));
        }
    }
}

/// The audio lines of a `wmic` listing never hold the streaming proxy: each line is
/// a trimmed, non-empty line after the header other than the proxy's name, or the
/// fallback line; and every such line after the header gives an audio line.
pub proof fn lemma_audio_wmic_lines(text: Seq<char>)
    ensures
        forall|i: int|
            0 <= i < audio_values_wmic(text).len() ==> #[trigger] audio_values_wmic(text)[i]
                != streaming_proxy_name(),
        forall|i: int|
            0 <= i < audio_values_wmic(text).len() && audio_values_wmic(text)[i]
                != "No hardware audio found"@ ==> exists|j: int|
                1 <= j < lines(text).len() && #[trigger] audio_values_wmic(text)[i] == trim(
                    lines(text)[j],
                ),
        forall|j: int|
            1 <= j < lines(text).len() && trim(#[trigger] lines(text)[j]).len() > 0 && trim(
                lines(text)[j],
            ) != streaming_proxy_name() ==> audio_values_wmic(text).contains(trim(lines(text)[j])),
{
    let names = wmic_names(text, Some(streaming_proxy_name()));
    let values = audio_values_wmic(text);
    lemma_wmic_names(text, Some(streaming_proxy_name()));
    lemma_dedup_adjacent(names);
    reveal_strlit("No hardware audio found");
    reveal_strlit("Microsoft Streaming Service Proxy");
    assert("No hardware audio found"@.len() != streaming_proxy_name().len());
    assert forall|i: int| 0 <= i < values.len() implies #[trigger] values[i]
        != streaming_proxy_name() by {
        if names.len() > 0 {
            let k = choose|k: int| 0 <= k < names.len() && names[k] == values[i];
            assert(names[k] == values[i]);
        }
    }
    assert forall|i: int|
        0 <= i < values.len() && values[i] != "No hardware audio found"@ implies exists|j: int|
        1 <= j < lines(text).len() && #[trigger] values[i] == trim(lines(text)[j]) by {
        if names.len() > 0 {
            let k = choose|k: int| 0 <= k < names.len() && names[k] == values[i];
            assert(names[k] == values[i]);
        }
    }
    assert forall|j: int|
        1 <= j < lines(text).len() && trim(#[trigger] lines(text)[j]).len() > 0 && trim(
            lines(text)[j],
        ) != streaming_proxy_name() implies values.contains(trim(lines(text)[j])) by {
        assert(Some(trim(lines(text)[j])) != Some(streaming_proxy_name()));
        assert(names.contains(trim(lines(text)[j])));
        assert(names[0] == names[0]);
        let k = choose|k: int| 0 <= k < names.len() && names[k] == trim(lines(text)[j]);
    }
}

/// A part of the board's name that was reported and is not empty.
pub open spec fn is_known(part: Option<String>) -> bool {
    part is Some && part.unwrap()@.len() > 0
}

/// The board line names the board: it ends with the board's name and begins with
/// its vendor when these are known, whatever the version is; a placeholder version
/// reads as no version at all; and with all three known and a real version, the
/// line is vendor, version and name with single spaces between them.
pub proof fn lemma_board_line(b: BoardReading)
    ensures
        is_known(b.name) ==> ends_with(board_line(Some(b)), b.name.unwrap()@),
        is_known(b.vendor_name) ==> starts_with(board_line(Some(b)), b.vendor_name.unwrap()@),
        (b.version is None || b.version.unwrap()@ == placeholder_board_version()) ==> board_line(
            Some(b),
        ) == board_line(
            Some(BoardReading { vendor_name: b.vendor_name, version: None, name: b.name }),
        ),
        is_known(b.vendor_name) && is_known(b.version) && b.version.unwrap()@
            != placeholder_board_version() && is_known(b.name) ==> board_line(Some(b))
            == b.vendor_name.unwrap()@ + seq![' '] + b.version.unwrap()@ + seq![' ']
            + b.name.unwrap()@,
{
    let parts = board_part(b.vendor_name) + board_version_part(b.version) + board_part(b.name);
    if parts.len() > 0 {
        lemma_join_words_ends(parts);
    }
    if is_known(b.name) {
        assert(parts.last() == b.name.unwrap()@);
    }
    if is_known(b.vendor_name) {
        assert(parts[0] == b.vendor_name.unwrap()@);
    }
    if b.version is None || b.version.unwrap()@ == placeholder_board_version() {
        assert(board_version_part(b.version) =~= Seq::<Seq<char>>::empty());
        let c = BoardReading { vendor_name: b.vendor_name, version: None, name: b.name };
        assert(board_part(c.vendor_name) + board_version_part(c.version) + board_part(c.name)
            =~= parts);
    }
    if is_known(b.vendor_name) && is_known(b.version) && b.version.unwrap()@
        != placeholder_board_version() && is_known(b.name) {
        let v = b.vendor_name.unwrap()@;
        let r = b.version.unwrap()@;
        let n = b.name.unwrap()@;
        assert(parts =~= seq![v, r, n]);
        assert(parts.drop_last() =~= seq![v, r]);
        assert(parts.drop_last().drop_last() =~= seq![v]);
        assert(join_words(seq![v]) == v);
        assert(join_words(seq![v, r]) == v + seq![' '] + r);
        assert(join_words(parts) == join_words(seq![v, r]) + seq![' '] + n);
    }
}

/// Each monitor line describes its own display: there is one line per display, in
/// order; it begins with that display's name and ends with "[Primary]" when that
/// display is the primary one and with "[External]" when it is not.
pub proof fn lemma_monitor_lines(displays: Option<Vec<MonitorReading>>)
    ensures
        displays is None ==> monitor_values(displays) == seq!["No monitors found"@],
        displays is Some ==> monitor_values(displays).len() == displays.unwrap()@.len(),
        displays is Some ==> forall|i: int|
            0 <= i < displays.unwrap()@.len() ==> {
                let m = displays.unwrap()@[i];
                let line = #[trigger] monitor_values(displays)[i];
                &&& starts_with(line, m.friendly_name@ + " "@)
                &&& m.is_primary ==> ends_with(line, "[Primary]"@)
                &&& !m.is_primary ==> ends_with(line, "[External]"@)
            },
{
    if displays is Some {
        let ds = displays.unwrap()@;
        assert forall|i: int| 0 <= i < ds.len() implies {
            let m = ds[i];
            let line = #[trigger] monitor_values(displays)[i];
            &&& starts_with(line, m.friendly_name@ + " "@)
            &&& m.is_primary ==> ends_with(line, "[Primary]"@)
            &&& !m.is_primary ==> ends_with(line, "[External]"@)
        } by {
            let m = ds[i];
            let line = monitor_values(displays)[i];
            assert(line == monitor_line(m));
            let head = m.friendly_name@ + " "@;
            let body = m.friendly_name@ + " "@ + decimal(m.width as nat) + "x"@ + decimal(
                m.height as nat,
            ) + " @ "@ + m.frequency@ + "Hz "@;
            let tag = if m.is_primary {
                "[Primary]"@
            } else {
                "[External]"@
            };
            assert(line == body + tag);
            assert(line.skip(line.len() - tag.len()) =~= tag);
            assert(line.take(head.len() as int) =~= head);
        }
    }
}

/// The GPU and network lines of a `wmic` listing are its trimmed, non-empty lines
/// after the header, and every such line gives one; with none there is the one
/// fallback line.
pub proof fn lemma_wmic_device_lines(text: Seq<char>)
    ensures
        forall|i: int|
            0 <= i < wmic_names(text, None).len() ==> exists|j: int|
                1 <= j < lines(text).len() && #[trigger] gpu_values_wmic(text)[i] == trim(
                    lines(text)[j],
                ) && network_values_wmic(text)[i] == gpu_values_wmic(text)[i]
                    && gpu_values_wmic(text)[i].len() > 0,
        forall|j: int|
            1 <= j < lines(text).len() && trim(#[trigger] lines(text)[j]).len() > 0
                ==> gpu_values_wmic(text).contains(trim(lines(text)[j]))
                && network_values_wmic(text).contains(trim(lines(text)[j])),
        wmic_names(text, None).len() == 0 ==> gpu_values_wmic(text) == seq!["Unknown GPU"@]
            && network_values_wmic(text) == seq!["Unknown Network Controller"@],
        wmic_names(text, None).len() > 0 ==> gpu_values_wmic(text).len() == wmic_names(
            text,
            None,
        ).len() && network_values_wmic(text).len() == wmic_names(text, None).len(),
{
    lemma_wmic_names(text, None);
    let names = wmic_names(text, None);
    assert forall|j: int|
        1 <= j < lines(text).len() && trim(#[trigger] lines(text)[j]).len() > 0
        implies gpu_values_wmic(text).contains(trim(lines(text)[j]))
            && network_values_wmic(text).contains(trim(lines(text)[j])) by {
        assert(Some(trim(lines(text)[j])) != None::<Seq<char>>);
        assert(names.contains(trim(lines(text)[j])));
    }
}

} // verus!
