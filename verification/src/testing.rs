//! The test-harness protocol: descriptors for named, zero-argument,
//! possibly-failing checks, the runner that executes them in order while
//! reporting progress on the secondary channel, the exit signal understood
//! by the hosting emulator, and the fault funnel for both build modes.

use crate::serial::SerialChannel;
use crate::vga::{
    lemma_write_bytes_snoc, restored_st, with_color_st, write_bytes_spec, Color, Writer, NEWLINE,
};
use vstd::prelude::*;
use vstd::string::StringExecFns;
use vstd::string::StringSliceAdditionalSpecFns;

verus! {

/// The verdict signalled to the hosting emulator's exit device; each
/// variant is bound to a fixed byte value given by `spec_value`.
#[derive(Clone, Copy, Debug, PartialEq, Eq, Structural)]
pub enum QemuExitCode {
    Success,
    Failed,
}

impl QemuExitCode {
    /// The fixed value written to the exit device for this verdict.
    pub open spec fn spec_value(self) -> u32 {
        match self {
            QemuExitCode::Success => 0x10,
            QemuExitCode::Failed => 0x11,
        }
    }

    /// Returns the value written to the exit device for this verdict.
    pub fn value(self) -> (v: u32)
        ensures
            v == self.spec_value(),
    {
        match self {
            QemuExitCode::Success => 0x10,
            QemuExitCode::Failed => 0x11,
        }
    }
}

/// A zero-argument, possibly-failing check; a failure carries its
/// diagnostic message.
pub trait Testable {
    fn run(&self) -> (r: Result<(), String>);
}

/// A named test: a descriptor consumed once by the runner.
pub struct TestDescriptor<T: Testable> {
    pub name: String,
    pub body: T,
}

/// The decimal digit character for `n` in `0..=9`.
pub open spec fn digit_char(n: int) -> char {
    if n == 0 {
        '0'
    } else if n == 1 {
        '1'
    } else if n == 2 {
        '2'
    } else if n == 3 {
        '3'
    } else if n == 4 {
        '4'
    } else if n == 5 {
        '5'
    } else if n == 6 {
        '6'
    } else if n == 7 {
        '7'
    } else if n == 8 {
        '8'
    } else {
        '9'
    }
}

/// The decimal rendering of a non-negative number, most significant digit
/// first.
pub open spec fn dec_digits(n: int) -> Seq<char>
    decreases n,
{
    if n < 10 {
        seq![digit_char(n)]
    } else {
        dec_digits(n / 10).push(digit_char(n % 10))
    }
}

fn digit_str(d: usize) -> (s: &'static str)
    requires
        d < 10,
    ensures
        s@ == seq![digit_char(d as int)],
{
    let s: &'static str = match d {
        0 => "0",
        1 => "1",
        2 => "2",
        3 => "3",
        4 => "4",
        5 => "5",
        6 => "6",
        7 => "7",
        8 => "8",
        _ => "9",
    };
    proof {
        reveal_strlit("0");
        reveal_strlit("1");
        reveal_strlit("2");
        reveal_strlit("3");
        reveal_strlit("4");
        reveal_strlit("5");
        reveal_strlit("6");
        reveal_strlit("7");
        reveal_strlit("8");
        reveal_strlit("9");
        assert(s@ =~= seq![digit_char(d as int)]);
    }
    s
}

/// Renders `n` in decimal.
pub fn usize_to_string(n: usize) -> (s: String)
    ensures
        s@ == dec_digits(n as int),
    decreases n,
{
    if n < 10 {
        let s = digit_str(n);
        s.to_owned()
    } else {
        let rest = usize_to_string(n / 10);
        rest.concat(digit_str(n % 10))
    }
}

/// The banner emitted before any test runs.
pub open spec fn banner_text(n: int) -> Seq<char> {
    "Running "@ + dec_digits(n) + " tests\n"@
}

/// The progress line emitted for one passing test.
pub open spec fn ok_entry(name: Seq<char>) -> Seq<char> {
    name + "... "@ + "[ok]\n"@
}

/// The progress lines of a run in which every named test passed, in order.
pub open spec fn ok_entries(names: Seq<Seq<char>>) -> Seq<char>
    decreases names.len(),
{
    if names.len() == 0 {
        Seq::<char>::empty()
    } else {
        ok_entry(names[0]) + ok_entries(names.drop_first())
    }
}

/// The diagnostic emitted on the secondary channel when a fault is funneled
/// into the test-mode coordinator.
pub open spec fn failure_text(msg: Seq<char>) -> Seq<char> {
    "Test failed!\n\n"@ + "Error: "@ + msg + "\n\n"@
}

/// The names of a list of descriptors, in order.
pub open spec fn names_of<T: Testable>(tests: Seq<TestDescriptor<T>>) -> Seq<Seq<char>> {
    tests.map_values(|d: TestDescriptor<T>| d.name@)
}

/// A run in which every test passed: the channel grew by the banner and one
/// success line per name, in order.
pub open spec fn reports_success(t0: Seq<char>, names: Seq<Seq<char>>, t1: Seq<char>) -> bool {
    t1 == t0 + banner_text(names.len() as int) + ok_entries(names)
}

/// A run stopped by a fault in test `k`: the channel grew by the banner,
/// one success line per earlier name, the failing test's name, and the
/// failure diagnostic; no later test left a trace.
pub open spec fn reports_failure(t0: Seq<char>, names: Seq<Seq<char>>, t1: Seq<char>) -> bool {
    exists|k: int, msg: Seq<char>|
        #![trigger names[k], failure_text(msg)]
        0 <= k < names.len() && t1 == t0 + banner_text(names.len() as int) + ok_entries(
            names.take(k),
        ) + (names[k] + "... "@) + failure_text(msg)
}

/// The test-mode fault funnel: reports the diagnostic on the secondary
/// channel and yields the failure verdict for the exit device. The caller
/// halts after signalling it.
pub fn panic(serial: &mut SerialChannel, info: &str) -> (code: QemuExitCode)
    ensures
        final(serial)@ == old(serial)@ + failure_text(info@),
        code == QemuExitCode::Failed,
{
    let ghost t0 = serial@;
    serial.emit("Test failed!\n\n");
    serial.emit("Error: ");
    serial.emit(info);
    serial.emit("\n\n");
    proof {
        assert(serial@ =~= t0 + failure_text(info@));
    }
    QemuExitCode::Failed
}

/// Runs every descriptor in order: emits the banner with the count, then
/// each descriptor's name followed by a success marker when its body
/// returns without fault. The first fault is funneled to `panic`: the run
/// stops there with the failure verdict and no further descriptor is
/// executed; if every body succeeds the verdict is success.
pub fn test_runner<T: Testable>(tests: &[TestDescriptor<T>], serial: &mut SerialChannel) -> (code:
    QemuExitCode)
    ensures
        code == QemuExitCode::Success || code == QemuExitCode::Failed,
        code == QemuExitCode::Success ==> reports_success(
            old(serial)@,
            names_of(tests@),
            final(serial)@,
        ),
        code == QemuExitCode::Failed ==> reports_failure(
            old(serial)@,
            names_of(tests@),
            final(serial)@,
        ),
{
    let ghost t0 = serial@;
    serial.emit("Running ");
    let count = usize_to_string(tests.len());
    serial.emit(count.as_str());
    serial.emit(" tests\n");
    proof {
        assert(serial@ =~= t0 + banner_text(tests@.len() as int));
    }
    let n = tests.len();
    let mut i: usize = 0;
    while i < n
        invariant
            n == tests@.len(),
            i <= n,
            t0 == old(serial)@,
            serial@ == t0 + banner_text(n as int) + ok_entries(names_of(tests@).take(i as int)),
        decreases n - i,
    {
        let ghost before = serial@;
        serial.emit(tests[i].name.as_str());
        serial.emit("... ");
        let outcome = tests[i].body.run();
        match outcome {
            Ok(_) => {
                serial.emit("[ok]\n");
                proof {
                    lemma_ok_entries_snoc(names_of(tests@), i as int);
                    assert(serial@ =~= t0 + banner_text(n as int) + ok_entries(
                        names_of(tests@).take(i + 1),
                    ));
                }
            },
            Err(msg) => {
                let code = panic(serial, msg.as_str());
                proof {
                    let k = i as int;
                    let names = names_of(tests@);
                    assert(names[k] == tests@[k].name@);
                    assert(names.len() == tests@.len());
                    assert(serial@ =~= t0 + banner_text(names.len() as int) + ok_entries(
                        names.take(k),
                    ) + (names[k] + "... "@) + failure_text(msg@));
                    assert(reports_failure(t0, names, serial@));
                }
                return code;
            },
        }
        i += 1;
    }
    proof {
        assert(names_of(tests@).take(n as int) =~= names_of(tests@));
    }
    QemuExitCode::Success
}

/// The normal-mode fault funnel: renders the diagnostic on the display in
/// a distinct color for visibility, restores the attribute that was active
/// before, and mirrors the diagnostic to the secondary channel. The caller
/// then halts; the coordinator itself restores the color explicitly, so no
/// cleanup is owed on the unwind path.
pub fn fault_report(writer: &mut Writer, serial: &mut SerialChannel, info: &str)
    requires
        old(writer).wf(),
    ensures
        final(writer).wf(),
        final(writer)@ == restored_st(
            write_bytes_spec(
                with_color_st(old(writer)@, Color::LightRed, Color::LightCyan),
                info.spec_bytes().push(NEWLINE),
            ),
            old(writer)@.color,
        ),
        final(serial)@ == old(serial)@ + info@ + "\n"@,
{
    let guard = writer.with_color(Color::LightRed, Color::LightCyan);
    writer.write_string(info);
    writer.write_byte(NEWLINE);
    writer.restore_color(guard);
    serial.emit(info);
    serial.emit("\n");
    proof {
        lemma_write_bytes_snoc(
            with_color_st(old(writer)@, Color::LightRed, Color::LightCyan),
            info.spec_bytes(),
            NEWLINE,
        );
        assert(serial@ =~= old(serial)@ + info@ + "\n"@);
    }
}

/// Rendering the progress lines of `a + b` renders those of `a`, then
/// those of `b`.
proof fn lemma_ok_entries_concat(a: Seq<Seq<char>>, b: Seq<Seq<char>>)
    ensures
        ok_entries(a + b) == ok_entries(a) + ok_entries(b),
    decreases a.len(),
{
    if a.len() == 0 {
        assert(a + b =~= b);
        assert(Seq::<char>::empty() + ok_entries(b) =~= ok_entries(b));
    } else {
        assert((a + b)[0] == a[0]);
        assert((a + b).drop_first() =~= a.drop_first() + b);
        lemma_ok_entries_concat(a.drop_first(), b);
        assert(ok_entry(a[0]) + (ok_entries(a.drop_first()) + ok_entries(b)) =~= (ok_entry(a[0])
            + ok_entries(a.drop_first())) + ok_entries(b));
    }
}

/// Appending one passing entry extends the rendered progress lines by that
/// entry.
proof fn lemma_ok_entries_snoc(names: Seq<Seq<char>>, k: int)
    requires
        0 <= k < names.len(),
    ensures
        ok_entries(names.take(k + 1)) == ok_entries(names.take(k)) + ok_entry(names[k]),
{
    reveal_with_fuel(ok_entries, 3);
    let single = seq![names[k]];
    assert(names.take(k + 1) =~= names.take(k) + single);
    lemma_ok_entries_concat(names.take(k), single);
    assert(single.drop_first() =~= Seq::<Seq<char>>::empty());
    assert(single[0] == names[k]);
    assert(ok_entry(names[k]) + Seq::<char>::empty() =~= ok_entry(names[k]));
}

} // verus!
