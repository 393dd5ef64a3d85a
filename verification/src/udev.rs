use vstd::prelude::*;

use crate::text::{chars_of, concat_chars, string_of};

verus! {

/// Where the udev rules for NetMD devices come from.
pub const NETMD_RULES_PATH: &'static str = "webminidisc/extra/70-netmd.rules";

/// The USB permission guidance, line by line.
pub open spec fn doctor_text() -> Seq<Seq<char>> {
    seq![
        "Linux USB diagnostics"@,
        seq![],
        "Mini Disco needs permission to open the NetMD USB device."@,
        "Install udev rules derived from `"@ + NETMD_RULES_PATH@ + "` as:"@,
        seq![],
        "  /etc/udev/rules.d/70-netmd.rules"@,
        seq![],
        "Then reload rules and reconnect the device:"@,
        seq![],
        "  sudo udevadm control --reload-rules"@,
        "  sudo udevadm trigger"@,
        seq![],
        "This first CLI only supports Linux USB NetMD devices."@,
    ]
}

fn line(s: &str) -> (r: String)
    ensures
        r@ == s@,
{
    string_of(&chars_of(s))
}

/// The USB permission guidance, line by line.
pub fn doctor_lines() -> (lines: Vec<String>)
    ensures
        lines@.map_values(|s: String| s@) == doctor_text(),
{
    let mut install = concat_chars(&chars_of("Install udev rules derived from `"), &chars_of(NETMD_RULES_PATH));
    install = concat_chars(&install, &chars_of("` as:"));
    let lines = vec![
        line("Linux USB diagnostics"),
        String::new(),
        line("Mini Disco needs permission to open the NetMD USB device."),
        string_of(&install),
        String::new(),
        line("  /etc/udev/rules.d/70-netmd.rules"),
        String::new(),
        line("Then reload rules and reconnect the device:"),
        String::new(),
        line("  sudo udevadm control --reload-rules"),
        line("  sudo udevadm trigger"),
        String::new(),
        line("This first CLI only supports Linux USB NetMD devices."),
    ];
    assert(lines@.map_values(|s: String| s@) =~= doctor_text());
    lines
}

} // verus!
