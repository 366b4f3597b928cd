//! One GPIO output line. A line is either backed by a claimed hardware
//! handle of the `gpio_cdev` crate, or simulated by a stored level, which
//! lets the registry logic above it run and be exercised without hardware.

use vstd::prelude::*;

verus! {

#[verifier::external_type_specification]
#[verifier::external_body]
pub struct ExChip(gpio_cdev::Chip);

#[verifier::external_type_specification]
#[verifier::external_body]
pub struct ExLine(gpio_cdev::Line);

#[verifier::external_type_specification]
#[verifier::external_body]
pub struct ExLineHandle(gpio_cdev::LineHandle);

#[verifier::external_type_specification]
#[verifier::external_body]
pub struct ExGpioCdevError(gpio_cdev::errors::Error);

/// The library's own error for a failed chip or line operation, carrying
/// the driver's message for the operator.
pub struct LineError {
    pub message: String,
}

impl LineError {
    pub open spec fn view(&self) -> Seq<char> {
        self.message@
    }

    pub fn text(&self) -> (r: &String)
        ensures
            r@ == self@,
    {
        &self.message
    }
}

/// Relies on gpio_cdev's `Display` impl for `errors::Error`: renders the
/// error as a message for the operator. Nothing is assumed of its content.
#[verifier::external_body]
fn gpio_error_text(e: &gpio_cdev::errors::Error) -> String {
    format!("{}", e)
}

/// Turns a driver error into the library's error type.
fn line_error_from(e: gpio_cdev::errors::Error) -> LineError {
    LineError { message: gpio_error_text(&e) }
}

/// Relies on `gpio_cdev::Chip::new`: opens the GPIO character device at
/// `path`. Whether it succeeds depends on the machine, so nothing is
/// promised of the outcome.
#[verifier::external_body]
fn chip_open(path: &str) -> Result<gpio_cdev::Chip, gpio_cdev::errors::Error> {
    gpio_cdev::Chip::new(path)
}

/// Relies on `gpio_cdev::Chip::get_line`: looks the line at `offset` up on
/// the chip. Whether the offset is in range depends on the hardware.
#[verifier::external_body]
fn chip_get_line(
    chip: &mut gpio_cdev::Chip,
    offset: u32,
) -> Result<gpio_cdev::Line, gpio_cdev::errors::Error> {
    chip.get_line(offset)
}

/// Relies on `gpio_cdev::Line::request`: claims the line for exclusive
/// output use, driven to `default` initially and tagged with `consumer`.
/// The kernel may refuse (line already claimed, permission denied).
#[verifier::external_body]
fn line_request_output(
    line: &gpio_cdev::Line,
    default: u8,
    consumer: &str,
) -> Result<gpio_cdev::LineHandle, gpio_cdev::errors::Error> {
    line.request(gpio_cdev::LineRequestFlags::OUTPUT, default, consumer)
}

/// Relies on `gpio_cdev::LineHandle::get_value`: asks the kernel for the
/// line's current level. The result depends on the hardware, so nothing is
/// promised of the outcome.
#[verifier::external_body]
fn handle_get_value(h: &gpio_cdev::LineHandle) -> Result<u8, gpio_cdev::errors::Error> {
    h.get_value()
}

/// Relies on `gpio_cdev::LineHandle::set_value`: asks the kernel to drive
/// the line to `value`. The kernel may refuse; nothing is promised of the
/// outcome.
#[verifier::external_body]
fn handle_set_value(
    h: &gpio_cdev::LineHandle,
    value: u8,
) -> Result<(), gpio_cdev::errors::Error> {
    h.set_value(value)
}

/// Opens the chip device at `path`, or reports why it could not be opened.
pub(crate) fn open_chip(path: &str) -> Result<gpio_cdev::Chip, LineError> {
    match chip_open(path) {
        Ok(chip) => Ok(chip),
        Err(e) => Err(line_error_from(e)),
    }
}

/// Claims exclusive output control of the line at `offset`, driven low
/// initially and tagged with this service's consumer name, or reports why
/// the claim failed.
pub(crate) fn get_handle_out(
    chip: &mut gpio_cdev::Chip,
    offset: u32,
) -> Result<gpio_cdev::LineHandle, LineError> {
    let line = match chip_get_line(chip, offset) {
        Ok(line) => line,
        Err(e) => {
            return Err(line_error_from(e));
        },
    };
    match line_request_output(&line, 0, "gpio-api") {
        Ok(handle) => Ok(handle),
        Err(e) => Err(line_error_from(e)),
    }
}

/// One output line: a claimed hardware handle, or a simulated line that
/// remembers the last level written to it (initially, like the hardware
/// request, level 0).
pub enum PinLine {
    Hardware(gpio_cdev::LineHandle),
    Simulated(u8),
}

impl PinLine {
    /// The remembered level of a simulated line; `None` for a hardware
    /// line, whose level only the kernel knows.
    pub open spec fn sim_level(&self) -> Option<u8> {
        match self {
            PinLine::Hardware(_) => None,
            PinLine::Simulated(v) => Some(*v),
        }
    }

    /// Reads the line's level. A simulated line reports its remembered
    /// level; a hardware line asks the kernel and may fail.
    pub fn read_level(&self) -> (r: Result<u8, LineError>)
        ensures
            self.sim_level() is Some ==> r == Result::<u8, LineError>::Ok(self.sim_level()->0),
    {
        match self {
            PinLine::Hardware(h) => match handle_get_value(h) {
                Ok(v) => Ok(v),
                Err(e) => Err(line_error_from(e)),
            },
            PinLine::Simulated(v) => Ok(*v),
        }
    }

    /// Drives the line to `value`. A simulated line remembers the value
    /// and always succeeds; a hardware line asks the kernel and may fail.
    /// Either way the line stays in its backing (hardware or simulated).
    pub fn write_level(&mut self, value: u8) -> (r: Result<(), LineError>)
        ensures
            old(self).sim_level() is Some ==> final (self).sim_level() == Some(value) && r is Ok,
            old(self).sim_level() is None ==> final (self).sim_level() is None,
    {
        match self {
            PinLine::Hardware(h) => match handle_set_value(h, value) {
                Ok(()) => Ok(()),
                Err(e) => Err(line_error_from(e)),
            },
            PinLine::Simulated(v) => {
                *v = value;
                Ok(())
            },
        }
    }
}

/// The text a cleanly read level is reported as: `"0"` and `"1"` for the
/// two logic levels, the `"err"` sentinel for an out-of-range reading.
pub open spec fn level_value_text(v: u8) -> Seq<char> {
    if v == 0 {
        "0"@
    } else if v == 1 {
        "1"@
    } else {
        "err"@
    }
}

/// The text a read result is reported as: the level for a clean reading,
/// the `"err"` sentinel for a failed read.
pub open spec fn level_text(r: Result<u8, LineError>) -> Seq<char> {
    match r {
        Ok(v) => level_value_text(v),
        Err(_) => "err"@,
    }
}

/// Whether `s` is one of the three texts a read can produce.
pub open spec fn is_level_text(s: Seq<char>) -> bool {
    s == "0"@ || s == "1"@ || s == "err"@
}

/// Renders a read result: `"0"` or `"1"` for those levels, `"err"` for a
/// failed read or an out-of-range reading.
pub fn level_str(r: &Result<u8, LineError>) -> (s: &'static str)
    ensures
        s@ == level_text(*r),
        is_level_text(s@),
{
    match r {
        Ok(v) => {
            if *v == 0 {
                "0"
            } else if *v == 1 {
                "1"
            } else {
                "err"
            }
        },
        Err(_) => "err",
    }
}

} // verus!
