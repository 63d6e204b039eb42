use test_os::serial::SerialChannel;
use test_os::testing::{
    fault_report, test_runner, usize_to_string, QemuExitCode, TestDescriptor, Testable,
};
use test_os::vga::{ColorCode, Writer};

enum Body {
    Passes,
    Fails(&'static str),
}

impl Testable for Body {
    fn run(&self) -> Result<(), String> {
        match self {
            Body::Passes => Ok(()),
            Body::Fails(msg) => Err((*msg).to_string()),
        }
    }
}

fn descriptor(name: &str, body: Body) -> TestDescriptor<Body> {
    TestDescriptor { name: name.to_string(), body }
}

#[test]
fn exit_codes_have_fixed_values() {
    assert_eq!(QemuExitCode::Success.value(), 0x10);
    assert_eq!(QemuExitCode::Failed.value(), 0x11);
    assert_ne!(QemuExitCode::Success, QemuExitCode::Failed);
}

#[test]
fn decimal_rendering_is_exact() {
    assert_eq!(usize_to_string(0), "0");
    assert_eq!(usize_to_string(7), "7");
    assert_eq!(usize_to_string(10), "10");
    assert_eq!(usize_to_string(199), "199");
    assert_eq!(usize_to_string(65535), "65535");
}

#[test]
fn runner_with_no_tests_reports_success() {
    let tests: Vec<TestDescriptor<Body>> = Vec::new();
    let mut serial = SerialChannel::new();
    let code = test_runner(&tests, &mut serial);
    assert_eq!(code, QemuExitCode::Success);
    assert_eq!(serial.contents(), "Running 0 tests\n");
}

#[test]
fn runner_reports_each_passing_test() {
    let tests = vec![
        descriptor("first_check", Body::Passes),
        descriptor("second_check", Body::Passes),
    ];
    let mut serial = SerialChannel::new();
    let code = test_runner(&tests, &mut serial);
    assert_eq!(code, QemuExitCode::Success);
    assert_eq!(
        serial.contents(),
        "Running 2 tests\nfirst_check... [ok]\nsecond_check... [ok]\n"
    );
}

#[test]
fn fault_in_a_test_stops_the_run_with_failure() {
    let tests = vec![
        descriptor("passing_check", Body::Passes),
        descriptor("exploding_check", Body::Fails("kaboom")),
        descriptor("never_reached", Body::Passes),
    ];
    let mut serial = SerialChannel::new();
    let code = test_runner(&tests, &mut serial);
    assert_eq!(code, QemuExitCode::Failed);
    let out = serial.contents();
    assert_eq!(
        out,
        "Running 3 tests\npassing_check... [ok]\nexploding_check... Test failed!\n\nError: kaboom\n\n"
    );
    assert!(!out.contains("never_reached"));
}

#[test]
fn test_mode_panic_reports_and_fails() {
    let mut serial = SerialChannel::new();
    let code = test_os::testing::panic(&mut serial, "assertion went wrong");
    assert_eq!(code, QemuExitCode::Failed);
    assert_eq!(
        serial.contents(),
        "Test failed!\n\nError: assertion went wrong\n\n"
    );
}

#[test]
fn normal_mode_fault_renders_and_restores_color() {
    let mut writer = Writer::new();
    let mut serial = SerialChannel::new();
    fault_report(&mut writer, &mut serial, "panicked at 'boom'");
    assert_eq!(serial.contents(), "panicked at 'boom'\n");
    assert_eq!(writer.color(), ColorCode::default());
    let shown: String = (0..18)
        .map(|c| writer.char_at(0, c).ascii_character as char)
        .collect();
    assert_eq!(shown, "panicked at 'boom'");
    // The diagnostic itself is rendered in the distinct fault color.
    assert_eq!(
        writer.char_at(0, 0).color_code,
        ColorCode::new(test_os::vga::Color::LightRed, test_os::vga::Color::LightCyan)
    );
}
