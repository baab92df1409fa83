use std::cell::RefCell;

use medius::error::Error;
use medius::flash::{download_target, esptool_args, flash_outcome, flash_with, reboot_target, CommandOutput, CommandRunner};
use medius::types::RebootTarget;

struct FakeRunner {
    calls: RefCell<Vec<(String, Vec<String>)>>,
    success: bool,
    stderr: String,
}

impl FakeRunner {
    fn ok() -> Self {
        FakeRunner { calls: RefCell::new(Vec::new()), success: true, stderr: String::new() }
    }
    fn failing(stderr: &str) -> Self {
        FakeRunner { calls: RefCell::new(Vec::new()), success: false, stderr: stderr.to_string() }
    }
}

impl CommandRunner for FakeRunner {
    fn run(&self, program: &str, args: &[String]) -> Result<CommandOutput, Error> {
        self.calls.borrow_mut().push((program.to_string(), args.to_vec()));
        Ok(CommandOutput {
            success: self.success,
            stdout: "wrote 0x10000".to_string(),
            stderr: self.stderr.clone(),
        })
    }
}

#[test]
fn esptool_args_match_flash_device_sh() {
    let args = esptool_args("/dev/ttyACM0", "fw.bin");
    assert_eq!(
        args,
        vec![
            "--chip",
            "esp32s3",
            "--port",
            "/dev/ttyACM0",
            "--before",
            "no_reset",
            "--after",
            "hard_reset",
            "write_flash",
            "0x10000",
            "fw.bin",
        ]
    );
}

#[test]
fn download_target_selects_host_or_device() {
    assert_eq!(download_target(false), 0);
    assert_eq!(download_target(true), 1);
}

#[test]
fn flash_with_runs_esptool_with_exact_argv() {
    let runner = FakeRunner::ok();
    let mut reboot_seen: Option<(String, bool)> = None;
    let res = flash_with("/dev/ttyACM0", "/tmp/medius_device.bin", false, &runner, |port, host| {
        reboot_seen = Some((port.to_string(), host));
        Ok(())
    });
    assert!(res.is_ok());
    assert_eq!(reboot_seen, Some(("/dev/ttyACM0".to_string(), false)));
    let calls = runner.calls.borrow();
    assert_eq!(calls.len(), 1);
    assert_eq!(calls[0].0, "esptool.py");
    assert_eq!(calls[0].1, esptool_args("/dev/ttyACM0", "/tmp/medius_device.bin"));
    assert!(calls[0].1.contains(&"0x10000".to_string()));
}

#[test]
fn flash_with_host_flag_reaches_reboot() {
    let runner = FakeRunner::ok();
    let mut host_flag = None;
    let _ = flash_with("COM7", "host.bin", true, &runner, |_port, host| {
        host_flag = Some(host);
        Ok(())
    });
    assert_eq!(host_flag, Some(true));
}

#[test]
fn flash_with_surfaces_nonzero_exit_as_flash_tool_error() {
    let runner = FakeRunner::failing("A fatal error occurred: cannot open port");
    let err = flash_with("/dev/ttyACM0", "fw.bin", false, &runner, |_, _| Ok(())).unwrap_err();
    match err {
        Error::FlashTool(msg) => assert!(msg.contains("cannot open port"), "msg: {msg}"),
        other => panic!("expected FlashTool, got {other:?}"),
    }
}

#[test]
fn flash_with_propagates_reboot_failure() {
    let runner = FakeRunner::ok();
    let err = flash_with("/dev/ttyACM0", "fw.bin", false, &runner, |_, _| Err(Error::NotFound)).unwrap_err();
    assert!(matches!(err, Error::NotFound));
    assert_eq!(runner.calls.borrow().len(), 0);
}

#[test]
fn failed_run_message_is_prefix_and_trimmed_stderr() {
    let out = CommandOutput { success: false, stdout: String::new(), stderr: "  bad port \n".to_string() };
    match flash_outcome(&out) {
        Err(Error::FlashTool(m)) => assert_eq!(m, "esptool exited non-zero; stderr: bad port"),
        other => panic!("expected FlashTool, got {other:?}"),
    }
    let ok = CommandOutput { success: true, stdout: String::new(), stderr: "noise".to_string() };
    assert!(flash_outcome(&ok).is_ok());
}

#[test]
fn reboot_target_names_the_download_mode_of_each_chip() {
    assert_eq!(reboot_target(true), RebootTarget::HostDownload);
    assert_eq!(reboot_target(false), RebootTarget::DeviceDownload);
}
