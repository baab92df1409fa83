//! Host-driven flashing: reboot a chip into ROM download mode, then hand off to `esptool`.
//!
//! Both chips are ESP32-S3 with the app partition at `0x10000`, so device and host flash take the
//! same `--chip` and address; they differ only in which chip is rebooted into download mode. The
//! `--before no_reset` matters: the chip is already in the ROM bootloader, and a reset would bounce
//! it back to the app.
//!
//! Running `esptool` sits behind [`CommandRunner`] and the reboot behind a closure, so the flow is
//! exercised with a recording runner and no hardware.

use crate::error::Error;
use crate::types::RebootTarget;
use vstd::prelude::*;
use vstd::string::StringExecFns;

verus! {

/// The esptool program name (on PATH).
pub const ESPTOOL: &'static str = "esptool.py";

/// The ESP32 chip both medius MCUs use.
pub const CHIP: &'static str = "esp32s3";

/// The flash address of the app partition.
pub const FLASH_ADDR: &'static str = "0x10000";

/// How long, in milliseconds, the chip takes to enter the ROM bootloader after the reboot frame.
pub const ROM_SETTLE_MS: u64 = 2000;

/// The outcome of running an external command.
#[derive(Debug, Clone)]
pub struct CommandOutput {
    /// Whether the process exited with status 0.
    pub success: bool,
    /// Captured standard output.
    pub stdout: String,
    /// Captured standard error.
    pub stderr: String,
}

/// Runs the external flash command: the seam that lets the flow run without spawning `esptool`.
pub trait CommandRunner {
    /// Run `program` with `args`, capturing its output. An error is a spawn failure (the program is
    /// not on PATH); a non-zero exit is `success == false`.
    fn run(&self, program: &str, args: &[String]) -> Result<CommandOutput, Error>;
}

/// The exact `esptool` argument vector for a `write_flash`.
pub open spec fn esptool_argv(port: Seq<char>, bin_path: Seq<char>) -> Seq<Seq<char>> {
    seq![
        "--chip"@,
        CHIP@,
        "--port"@,
        port,
        "--before"@,
        "no_reset"@,
        "--after"@,
        "hard_reset"@,
        "write_flash"@,
        FLASH_ADDR@,
        bin_path,
    ]
}

/// The texts of a vector of strings.
pub open spec fn texts(v: Seq<String>) -> Seq<Seq<char>> {
    v.map_values(|s: String| s@)
}

/// `--chip esp32s3 --port <port> --before no_reset --after hard_reset write_flash 0x10000 <bin>`.
pub fn esptool_args(port: &str, bin_path: &str) -> (args: Vec<String>)
    ensures
        texts(args@) == esptool_argv(port@, bin_path@),
{
    let mut v: Vec<String> = Vec::new();
    v.push(String::from_str("--chip"));
    v.push(String::from_str(CHIP));
    v.push(String::from_str("--port"));
    v.push(String::from_str(port));
    v.push(String::from_str("--before"));
    v.push(String::from_str("no_reset"));
    v.push(String::from_str("--after"));
    v.push(String::from_str("hard_reset"));
    v.push(String::from_str("write_flash"));
    v.push(String::from_str(FLASH_ADDR));
    v.push(String::from_str(bin_path));
    assert(texts(v@) =~= esptool_argv(port@, bin_path@));
    v
}

/// The reboot target byte of a download-mode reboot: 1 for the host chip, 0 for the device chip.
pub fn download_target(host: bool) -> (b: u8)
    ensures
        b == (if host { 1u8 } else { 0u8 }),
{
    if host {
        1
    } else {
        0
    }
}

/// The download-mode reboot of the host or the device chip.
pub fn reboot_target(host: bool) -> (t: RebootTarget)
    ensures
        t == (if host { RebootTarget::HostDownload } else { RebootTarget::DeviceDownload }),
{
    if host {
        RebootTarget::HostDownload
    } else {
        RebootTarget::DeviceDownload
    }
}

/// Whether a character has the Unicode `White_Space` property, as `char::is_whitespace` reads it.
pub open spec fn is_white_space(c: char) -> bool {
    let n = c as int;
    (0x09 <= n <= 0x0D) || n == 0x20 || n == 0x85 || n == 0xA0 || n == 0x1680 || (0x2000 <= n
        <= 0x200A) || n == 0x2028 || n == 0x2029 || n == 0x202F || n == 0x205F || n == 0x3000
}

/// `s` without its leading whitespace.
pub open spec fn trim_start_spec(s: Seq<char>) -> Seq<char>
    decreases s.len(),
{
    if s.len() > 0 && is_white_space(s[0]) {
        trim_start_spec(s.drop_first())
    } else {
        s
    }
}

/// `s` without its trailing whitespace.
pub open spec fn trim_end_spec(s: Seq<char>) -> Seq<char>
    decreases s.len(),
{
    if s.len() > 0 && is_white_space(s.last()) {
        trim_end_spec(s.drop_last())
    } else {
        s
    }
}

/// What `str::trim` returns for `s`: `s` without leading and trailing whitespace.
pub open spec fn trimmed(s: Seq<char>) -> Seq<char> {
    trim_end_spec(trim_start_spec(s))
}

/// Trusted: `str::trim`. Claims the result is `s` with its leading and trailing `White_Space`
/// characters removed, as the documentation of `str::trim` says.
#[verifier::external_body]
fn trim(s: &str) -> (t: &str)
    ensures
        t@ == trimmed(s@),
{
    s.trim()
}

/// The leading words of the flash-tool error.
pub open spec fn flash_failure_text(stderr: Seq<char>) -> Seq<char> {
    "esptool exited non-zero; stderr: "@ + trimmed(stderr)
}

/// What a finished `esptool` run means: success, or the flash-tool error carrying its trimmed
/// stderr.
pub fn flash_outcome(out: &CommandOutput) -> (r: Result<(), Error>)
    ensures
        out.success ==> r == Ok::<(), Error>(()),
        !out.success ==> (r matches Err(Error::FlashTool(m)) && m@ == flash_failure_text(out.stderr@)),
{
    if out.success {
        Ok(())
    } else {
        let mut m = String::from_str("esptool exited non-zero; stderr: ");
        m.append(trim(out.stderr.as_str()));
        Err(Error::FlashTool(m))
    }
}

/// Whether `r` is what a flash comes to once `esptool` came to `ran`: a spawn failure as is, a
/// clean exit as success, and a non-zero exit as the flash-tool error carrying the trimmed stderr.
pub open spec fn flash_finished(ran: Result<CommandOutput, Error>, r: Result<(), Error>) -> bool {
    match ran {
        Err(e) => r == Err::<(), Error>(e),
        Ok(out) => if out.success {
            r == Ok::<(), Error>(())
        } else {
            r matches Err(Error::FlashTool(m)) && m@ == flash_failure_text(out.stderr@)
        },
    }
}

/// What a flash comes to once `esptool` was asked to run: a spawn failure as is, else what the
/// finished run means.
pub fn finish_flash(ran: Result<CommandOutput, Error>) -> (r: Result<(), Error>)
    ensures
        flash_finished(ran, r),
{
    match ran {
        Err(e) => Err(e),
        Ok(out) => flash_outcome(&out),
    }
}

/// Flash `bin_path` to a chip on `port`: `reboot(port, host)` puts the chip (host or device) into
/// ROM download mode, then `runner` runs `esptool` with [`esptool_args`]. A failed reboot is
/// returned as is and `esptool` is not run; otherwise `runner` is asked once to run `esptool.py`
/// with the exact [`esptool_args`], and the result is what [`finish_flash`] makes of its outcome: a
/// spawn failure as is, a non-zero exit the flash-tool error.
pub fn flash_with<R: CommandRunner, F: FnOnce(&str, bool) -> Result<(), Error>>(
    port: &str,
    bin_path: &str,
    host: bool,
    runner: &R,
    reboot: F,
) -> (r: Result<(), Error>)
    requires
        reboot.requires((port, host)),
    ensures
        exists|rebooted: Result<(), Error>| #[trigger]
            reboot.ensures((port, host), rebooted) && match rebooted {
                Err(e) => r == Err::<(), Error>(e),
                Ok(_) => exists|args: &[String], ran: Result<CommandOutput, Error>|
                    texts(args@) == esptool_argv(port@, bin_path@) && #[trigger] call_ensures(
                        R::run,
                        (runner, ESPTOOL, args),
                        ran,
                    ) && flash_finished(ran, r),
            },
{
    let rebooted = reboot(port, host);
    if let Err(e) = rebooted {
        return Err(e);
    }
    let args = esptool_args(port, bin_path);
    let argv = args.as_slice();
    assert(argv@ == args@);
    let run = R::run;
    let ran = run(runner, ESPTOOL, argv);
    let r = finish_flash(ran);
    assert(texts(argv@) == esptool_argv(port@, bin_path@));
    r
}

} // verus!
