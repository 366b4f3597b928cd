//! The pin registry: the ordered collection of bound output lines, each
//! paired with its configured hardware offset and symbolic name. Built
//! once at startup, then read and written by positional index or by name
//! for the life of the process; the order never changes afterwards.

use vstd::prelude::*;

use crate::digits::{all_dec_digits, dec_str, dec_val, parse_index, u32_text};
use crate::line::{
    get_handle_out, is_level_text, level_str, level_value_text, open_chip, LineError, PinLine,
};

verus! {

/// The mathematical content of one binding: its hardware offset, its
/// symbolic name, and — for a simulated line — the level it remembers.
/// A hardware-backed line's level is `None`: only the kernel knows it.
pub ghost struct PinView {
    pub offset: u32,
    pub name: Seq<char>,
    pub level: Option<u8>,
}

/// The binding after a write of `value`: a simulated line remembers the
/// value, a hardware line keeps its unknown level; offset and name are
/// untouched.
pub open spec fn pin_written(p: PinView, value: u8) -> PinView {
    PinView {
        offset: p.offset,
        name: p.name,
        level: if p.level is Some {
            Some(value)
        } else {
            None
        },
    }
}

/// The registry contents after a write of `value` to the pin at `i`.
pub open spec fn spec_set(v: Seq<PinView>, i: int, value: u8) -> Seq<PinView>
    recommends
        0 <= i < v.len(),
{
    v.update(i, pin_written(v[i], value))
}

/// The registry contents after a write of `value` to every pin that
/// bears `name`.
pub open spec fn spec_name_set(v: Seq<PinView>, name: Seq<char>, value: u8) -> Seq<PinView> {
    Seq::new(
        v.len(),
        |i: int|
            if v[i].name == name {
                pin_written(v[i], value)
            } else {
                v[i]
            },
    )
}

/// Whether some pin bears `name`.
pub open spec fn name_matches(v: Seq<PinView>, name: Seq<char>) -> bool {
    exists|i: int| 0 <= i < v.len() && v[i].name == name
}

/// The position of the last pin bearing `name`, `-1` when none does. A
/// read by name reports this pin: every match is read in registry order
/// and later matches overwrite the chosen result.
pub open spec fn last_match(v: Seq<PinView>, name: Seq<char>) -> int
    decreases v.len(),
{
    if v.len() == 0 {
        -1
    } else if v.last().name == name {
        v.len() - 1
    } else {
        last_match(v.drop_last(), name)
    }
}

/// How many pins bear `name`.
pub open spec fn match_count(v: Seq<PinView>, name: Seq<char>) -> nat
    decreases v.len(),
{
    if v.len() == 0 {
        0
    } else {
        match_count(v.drop_last(), name) + if v.last().name == name {
            1nat
        } else {
            0nat
        }
    }
}

/// The operator log a write by name produces with debug mode on, when
/// every matching line reports success: one line per matching pin, in
/// registry order.
pub open spec fn match_log_texts(v: Seq<PinView>, name: Seq<char>, value: u8) -> Seq<Seq<char>>
    decreases v.len(),
{
    if v.len() == 0 {
        Seq::empty()
    } else {
        match_log_texts(v.drop_last(), name, value) + if v.last().name == name {
            seq![write_log_text(v.last().offset, value)]
        } else {
            Seq::empty()
        }
    }
}

/// `last_match` finds a pin bearing the name exactly when one exists,
/// and no later pin bears it.
pub proof fn lemma_last_match(v: Seq<PinView>, name: Seq<char>)
    ensures
        -1 <= last_match(v, name) < v.len(),
        name_matches(v, name) <==> 0 <= last_match(v, name) < v.len(),
        name_matches(v, name) ==> v[last_match(v, name)].name == name,
        forall|j: int| last_match(v, name) < j < v.len() ==> v[j].name != name,
    decreases v.len(),
{
    if v.len() > 0 {
        lemma_last_match(v.drop_last(), name);
        assert(forall|j: int| 0 <= j < v.len() - 1 ==> v.drop_last()[j] == v[j]);
        assert(v.last() == v[v.len() - 1]);
        if v.last().name == name {
            assert(v[v.len() - 1].name == name);
            assert(name_matches(v, name));
        } else {
            if name_matches(v, name) {
                let i = choose|i: int| 0 <= i < v.len() && v[i].name == name;
                assert(i < v.len() - 1);
                assert(v.drop_last()[i].name == name);
                assert(name_matches(v.drop_last(), name));
            }
            if name_matches(v.drop_last(), name) {
                let i = choose|i: int|
                    0 <= i < v.drop_last().len() && v.drop_last()[i].name == name;
                assert(v[i].name == name);
                assert(name_matches(v, name));
            }
            assert(forall|j: int| last_match(v, name) < j < v.len() ==> v[j].name != name) by {
                assert forall|j: int| last_match(v, name) < j < v.len() implies v[j].name
                    != name by {
                    if j < v.len() - 1 {
                        assert(v.drop_last()[j].name != name);
                    }
                }
            }
        }
    }
}

/// The operator log line for a successful write.
pub open spec fn write_log_text(offset: u32, value: u8) -> Seq<char> {
    "pin "@ + dec_str(offset as nat) + " set to "@ + dec_str(value as nat)
}

/// Whether `s` is an operator log line for a failed write: the error
/// marker followed by the driver's message.
pub open spec fn is_error_log(s: Seq<char>) -> bool {
    s.len() >= 7 && s.subrange(0, 7) == "error: "@
}

/// One line of the full-registry report.
pub open spec fn report_line_text(offset: u32, name: Seq<char>, value: Seq<char>) -> Seq<char> {
    "pin: "@ + dec_str(offset as nat) + " | name: "@ + name + " | state: "@ + value + "\n"@
}

/// The full report: one line per pin, in registry order, with `vals`
/// supplying the level text read for each pin.
pub open spec fn report_text(v: Seq<PinView>, vals: Seq<Seq<char>>) -> Seq<char>
    recommends
        v.len() == vals.len(),
    decreases v.len(),
{
    if v.len() == 0 {
        Seq::empty()
    } else {
        report_text(v.drop_last(), vals.drop_last()) + report_line_text(
            v.last().offset,
            v.last().name,
            vals.last(),
        )
    }
}

fn write_log_line(offset: u32, value: u8) -> (s: String)
    ensures
        s@ == write_log_text(offset, value),
{
    let mut s = String::from_str("pin ");
    s.append(u32_text(offset).as_str());
    s.append(" set to ");
    s.append(u32_text(value as u32).as_str());
    proof {
        assert(s@ =~= write_log_text(offset, value));
    }
    s
}

fn error_log_line(e: &LineError) -> (s: String)
    ensures
        is_error_log(s@),
{
    let mut s = String::from_str("error: ");
    s.append(e.text().as_str());
    proof {
        reveal_strlit("error: ");
        assert(s@.subrange(0, 7) =~= "error: "@);
    }
    s
}

/// One claimed output line together with its configured offset and name.
pub struct PinBinding {
    offset: u32,
    name: String,
    line: PinLine,
}

impl View for PinBinding {
    type V = PinView;

    closed spec fn view(&self) -> PinView {
        PinView { offset: self.offset, name: self.name@, level: self.line.sim_level() }
    }
}

/// Drives one binding's line to `value`; with `debug` on, also renders
/// the operator log line the write produces.
fn write_pin(b: &mut PinBinding, value: u8, debug: bool) -> (log: Option<String>)
    ensures
        final (b)@ == pin_written(old(b)@, value),
        log is Some <==> debug,
        debug && old(b)@.level is Some ==> log->0@ == write_log_text(old(b)@.offset, value),
        debug ==> (log->0@ == write_log_text(old(b)@.offset, value) || is_error_log(log->0@)),
{
    let offset = b.offset;
    let res = b.line.write_level(value);
    if debug {
        match res {
            Ok(()) => Some(write_log_line(offset, value)),
            Err(e) => Some(error_log_line(&e)),
        }
    } else {
        None
    }
}

/// The ordered, fixed collection of all bindings, with the flag that
/// turns per-write operator logging on.
pub struct PinRegistry {
    bindings: Vec<PinBinding>,
    debug: bool,
}

impl View for PinRegistry {
    type V = Seq<PinView>;

    closed spec fn view(&self) -> Seq<PinView> {
        self.bindings@.map_values(|b: PinBinding| b@)
    }
}

impl PinRegistry {
    /// Whether write operations produce operator log lines.
    pub closed spec fn debug_mode(&self) -> bool {
        self.debug
    }

    /// Builds a registry of simulated lines, one per configured pin, each
    /// remembering level 0 — the same initial level a hardware claim
    /// drives. This backing lets every operation above the line layer be
    /// exercised without a GPIO chip.
    pub fn simulated(pins: &Vec<u32>, names: &Vec<String>, debug: bool) -> (r: PinRegistry)
        requires
            pins@.len() == names@.len(),
        ensures
            r@.len() == pins@.len(),
            forall|j: int|
                0 <= j < r@.len() ==> r@[j].offset == pins@[j] && r@[j].name == names@[j]@
                    && r@[j].level == Some(0u8),
            r.debug_mode() == debug,
    {
        let mut bindings: Vec<PinBinding> = Vec::new();
        let mut i: usize = 0;
        while i < pins.len()
            invariant
                0 <= i <= pins@.len(),
                pins@.len() == names@.len(),
                bindings@.len() == i,
                forall|j: int|
                    0 <= j < i ==> bindings@[j]@.offset == pins@[j] && bindings@[j]@.name
                        == names@[j]@ && bindings@[j]@.level == Some(0u8),
            decreases pins@.len() - i,
        {
            let binding = PinBinding {
                offset: pins[i],
                name: names[i].clone(),
                line: PinLine::Simulated(0),
            };
            proof {
                assert(binding@.offset == pins@[i as int]);
                assert(binding@.name == names@[i as int]@);
                assert(binding@.level == Some(0u8));
            }
            bindings.push(binding);
            proof {
                assert(bindings@[i as int] == binding);
            }
            i = i + 1;
        }
        PinRegistry { bindings, debug }
    }

    /// Opens the chip at `chip_path` and claims every configured pin for
    /// exclusive output use, in configuration order. Any single failure
    /// abandons the whole startup: no partially bound registry is ever
    /// produced.
    pub fn bind(chip_path: &str, pins: &Vec<u32>, names: &Vec<String>, debug: bool) -> (r: Result<
        PinRegistry,
        LineError,
    >)
        requires
            pins@.len() == names@.len(),
        ensures
            r is Ok ==> (r->Ok_0)@.len() == pins@.len(),
            r is Ok ==> forall|j: int|
                0 <= j < pins@.len() ==> (r->Ok_0)@[j].offset == pins@[j] && (r->Ok_0)@[j].name
                    == names@[j]@ && (r->Ok_0)@[j].level is None,
            r is Ok ==> (r->Ok_0).debug_mode() == debug,
    {
        let mut chip = match open_chip(chip_path) {
            Ok(chip) => chip,
            Err(e) => {
                return Err(e);
            },
        };
        let mut bindings: Vec<PinBinding> = Vec::new();
        let mut i: usize = 0;
        while i < pins.len()
            invariant
                0 <= i <= pins@.len(),
                pins@.len() == names@.len(),
                bindings@.len() == i,
                forall|j: int|
                    0 <= j < i ==> bindings@[j]@.offset == pins@[j] && bindings@[j]@.name
                        == names@[j]@ && bindings@[j]@.level is None,
            decreases pins@.len() - i,
        {
            let handle = match get_handle_out(&mut chip, pins[i]) {
                Ok(handle) => handle,
                Err(e) => {
                    return Err(e);
                },
            };
            let binding = PinBinding {
                offset: pins[i],
                name: names[i].clone(),
                line: PinLine::Hardware(handle),
            };
            proof {
                assert(binding@.name == names@[i as int]@);
            }
            bindings.push(binding);
            proof {
                assert(bindings@[i as int] == binding);
            }
            i = i + 1;
        }
        Ok(PinRegistry { bindings, debug })
    }

    /// The number of configured pins.
    pub fn len(&self) -> (n: usize)
        ensures
            n == self@.len(),
    {
        self.bindings.len()
    }

    /// Serves a read of the pin at `index`: the pin's level text if the
    /// index is in range, the `"invalid GPIO"` sentinel if and only if it
    /// is not.
    pub fn get_response(&self, index: usize) -> (r: String)
        ensures
            index < self@.len() ==> is_level_text(r@),
            index < self@.len() && self@[index as int].level is Some ==> r@ == level_value_text(
                self@[index as int].level->0,
            ),
            index >= self@.len() <==> r@ == "invalid GPIO"@,
    {
        proof {
            reveal_strlit("invalid GPIO");
            reveal_strlit("0");
            reveal_strlit("1");
            reveal_strlit("err");
        }
        if index < self.bindings.len() {
            let read = self.bindings[index].line.read_level();
            let s = level_str(&read);
            let r = String::from_str(s);
            proof {
                assert(self@[index as int].level == self.bindings@[index as int]@.level);
                assert(is_level_text(r@));
                assert(("invalid GPIO"@).len() == 12);
                assert(r@.len() <= 3);
                assert(r@ != "invalid GPIO"@);
            }
            r
        } else {
            String::from_str("invalid GPIO")
        }
    }

    /// Serves a read addressed by a raw path segment: the segment must be
    /// a decimal index in range; anything else — empty, non-numeric, too
    /// large to represent, or out of range — earns the `"invalid GPIO"`
    /// sentinel.
    pub fn get_response_for_segment(&self, segment: &str) -> (r: String)
        ensures
            r@ == "invalid GPIO"@ <==> !(segment@.len() > 0 && all_dec_digits(segment@) && dec_val(
                segment@,
            ) < self@.len()),
            segment@.len() > 0 && all_dec_digits(segment@) && dec_val(segment@) < self@.len()
                ==> is_level_text(r@) && (self@[dec_val(segment@)].level is Some ==> r@
                == level_value_text(self@[dec_val(segment@)].level->0)),
    {
        let n = self.bindings.len();
        match parse_index(segment) {
            Some(index) => {
                proof {
                    if dec_val(segment@) < self@.len() {
                        assert(index < self@.len());
                    }
                }
                self.get_response(index)
            },
            None => {
                proof {
                    if segment@.len() > 0 && all_dec_digits(segment@) && dec_val(segment@)
                        < self@.len() {
                        assert(self@.len() == n);
                        assert(dec_val(segment@) <= usize::MAX);
                    }
                }
                String::from_str("invalid GPIO")
            },
        }
    }

    /// Serves a write of `state` to the pin at `pin`: drives the line and
    /// answers `"OK"` exactly when the index is in range, the
    /// `"invalid GPIO pin"` sentinel otherwise. The second component is
    /// the operator log: empty unless debug mode is on, then the one log
    /// line the write produced. No other pin is touched.
    pub fn set_response(&mut self, pin: usize, state: u8) -> (r: (String, Vec<String>))
        ensures
            pin < old(self)@.len() ==> final (self)@ == spec_set(old(self)@, pin as int, state),
            pin >= old(self)@.len() ==> final (self)@ == old(self)@,
            pin < old(self)@.len() <==> r.0@ == "OK"@,
            pin >= old(self)@.len() ==> r.0@ == "invalid GPIO pin"@,
            final (self).debug_mode() == old(self).debug_mode(),
            !(old(self).debug_mode() && pin < old(self)@.len()) ==> r.1@.len() == 0,
            old(self).debug_mode() && pin < old(self)@.len() ==> r.1@.len() == 1 && (r.1@[0]@
                == write_log_text(old(self)@[pin as int].offset, state) || is_error_log(r.1@[0]@)),
            old(self).debug_mode() && pin < old(self)@.len() && old(self)@[pin as int].level
                is Some ==> r.1@[0]@ == write_log_text(old(self)@[pin as int].offset, state),
    {
        proof {
            reveal_strlit("OK");
            reveal_strlit("invalid GPIO pin");
        }
        let mut log: Vec<String> = Vec::new();
        if pin < self.bindings.len() {
            let debug = self.debug;
            let entry = write_pin(&mut self.bindings[pin], state, debug);
            match entry {
                Some(message) => log.push(message),
                None => (),
            }
            proof {
                assert(final (self)@ =~= spec_set(old(self)@, pin as int, state));
            }
            let ok = String::from_str("OK");
            proof {
                assert(ok@ == "OK"@);
            }
            (ok, log)
        } else {
            let invalid = String::from_str("invalid GPIO pin");
            proof {
                assert(("OK"@).len() == 2);
                assert(("invalid GPIO pin"@).len() == 16);
                assert(invalid@ != "OK"@);
            }
            (invalid, log)
        }
    }

    /// Serves a read addressed by name: every pin bearing the name is
    /// read in registry order and the last reading wins, so the reported
    /// text is the last matching pin's. When no pin bears the name the
    /// answer is exactly the `"invalid GPIO name"` sentinel.
    pub fn name_get_response(&self, name: &String) -> (r: String)
        ensures
            name_matches(self@, name@) <==> r@ != "invalid GPIO name"@,
            name_matches(self@, name@) ==> is_level_text(r@),
            name_matches(self@, name@) && self@[last_match(self@, name@)].level is Some ==> r@
                == level_value_text(self@[last_match(self@, name@)].level->0),
    {
        proof {
            reveal_strlit("invalid GPIO name");
            reveal_strlit("0");
            reveal_strlit("1");
            reveal_strlit("err");
        }
        let mut value: Option<&'static str> = None;
        let mut i: usize = 0;
        while i < self.bindings.len()
            invariant
                0 <= i <= self@.len(),
                self@.len() == self.bindings@.len(),
                value is Some <==> name_matches(self@.subrange(0, i as int), name@),
                value is Some ==> is_level_text(value->0@),
                value is Some && self@[last_match(self@.subrange(0, i as int), name@)].level
                    is Some ==> value->0@ == level_value_text(
                    self@[last_match(self@.subrange(0, i as int), name@)].level->0,
                ),
            decreases self@.len() - i,
        {
            let ghost prefix = self@.subrange(0, i as int);
            let ghost extended = self@.subrange(0, i + 1 as int);
            proof {
                assert(extended.drop_last() =~= prefix);
                assert(extended.last() == self@[i as int]);
                lemma_last_match(prefix, name@);
                lemma_last_match(extended, name@);
            }
            if self.bindings[i].name == *name {
                let read = self.bindings[i].line.read_level();
                value = Some(level_str(&read));
                proof {
                    assert(self@[i as int].level == self.bindings@[i as int]@.level);
                    assert(last_match(extended, name@) == i as int);
                }
            } else {
                proof {
                    assert(self@[i as int].name != name@);
                    if name_matches(extended, name@) {
                        assert(name_matches(prefix, name@));
                    }
                    if name_matches(prefix, name@) {
                        assert(name_matches(extended, name@));
                    }
                }
            }
            i = i + 1;
        }
        proof {
            assert(self@.subrange(0, self@.len() as int) =~= self@);
        }
        match value {
            Some(s) => {
                let r = String::from_str(s);
                proof {
                    assert(r@.len() <= 3);
                    assert(("invalid GPIO name"@).len() == 17);
                }
                r
            },
            None => String::from_str("invalid GPIO name"),
        }
    }

    /// Serves a write of `state` addressed by name: drives every pin
    /// bearing the name, in registry order, and answers `"OK"` exactly
    /// when at least one pin bore it, the `"invalid GPIO name"` sentinel
    /// otherwise. No other pin is touched. The second component is the
    /// operator log: with debug mode on, one line per matching pin.
    pub fn name_set_response(&mut self, name: &String, state: u8) -> (r: (String, Vec<String>))
        ensures
            final (self)@ == spec_name_set(old(self)@, name@, state),
            name_matches(old(self)@, name@) <==> r.0@ == "OK"@,
            !name_matches(old(self)@, name@) ==> r.0@ == "invalid GPIO name"@,
            final (self).debug_mode() == old(self).debug_mode(),
            !old(self).debug_mode() ==> r.1@.len() == 0,
            old(self).debug_mode() ==> r.1@.len() == match_count(old(self)@, name@),
            old(self).debug_mode() && (forall|j: int|
                0 <= j < old(self)@.len() && old(self)@[j].name == name@
                    ==> old(self)@[j].level is Some) ==> r.1.deep_view() == match_log_texts(
                old(self)@,
                name@,
                state,
            ),
    {
        proof {
            reveal_strlit("OK");
            reveal_strlit("invalid GPIO name");
        }
        let mut log: Vec<String> = Vec::new();
        let mut found = false;
        let mut i: usize = 0;
        let debug = self.debug;
        while i < self.bindings.len()
            invariant
                0 <= i <= old(self)@.len(),
                self.bindings@.len() == old(self)@.len(),
                self.debug == old(self).debug_mode(),
                debug == old(self).debug_mode(),
                forall|j: int|
                    0 <= j < old(self)@.len() ==> #[trigger] self.bindings@[j]@ == (
                    if j < i && old(self)@[j].name == name@ {
                        pin_written(old(self)@[j], state)
                    } else {
                        old(self)@[j]
                    }),
                found <==> name_matches(old(self)@.subrange(0, i as int), name@),
                debug ==> log@.len() == match_count(old(self)@.subrange(0, i as int), name@),
                debug && (forall|j: int|
                    0 <= j < old(self)@.len() && old(self)@[j].name == name@
                        ==> old(self)@[j].level is Some) ==> log.deep_view() == match_log_texts(
                    old(self)@.subrange(0, i as int),
                    name@,
                    state,
                ),
                !debug ==> log@.len() == 0,
            decreases old(self)@.len() - i,
        {
            let ghost prefix = old(self)@.subrange(0, i as int);
            let ghost extended = old(self)@.subrange(0, i + 1 as int);
            proof {
                assert(extended.drop_last() =~= prefix);
                assert(extended.last() == old(self)@[i as int]);
            }
            if self.bindings[i].name == *name {
                proof {
                    assert(self.bindings@[i as int]@ == old(self)@[i as int]);
                    assert(old(self)@[i as int].name == name@);
                }
                let ghost old_log = log.deep_view();
                let entry = write_pin(&mut self.bindings[i], state, debug);
                match entry {
                    Some(message) => {
                        let ghost message_text = message@;
                        log.push(message);
                        proof {
                            assert(log.deep_view() =~= old_log.push(message_text));
                            if forall|j: int|
                                0 <= j < old(self)@.len() && old(self)@[j].name == name@
                                    ==> old(self)@[j].level is Some {
                                assert(old(self)@[i as int].level is Some);
                                assert(message_text == write_log_text(
                                    old(self)@[i as int].offset,
                                    state,
                                ));
                                assert(log.deep_view() =~= match_log_texts(
                                    extended,
                                    name@,
                                    state,
                                ));
                            }
                        }
                    },
                    None => (),
                }
                found = true;
            } else {
                proof {
                    assert(self.bindings@[i as int]@ == old(self)@[i as int]);
                    assert(old(self)@[i as int].name != name@);
                    if name_matches(extended, name@) {
                        assert(name_matches(prefix, name@));
                    }
                    if name_matches(prefix, name@) {
                        assert(name_matches(extended, name@));
                    }
                    assert(match_log_texts(extended, name@, state) =~= match_log_texts(
                        prefix,
                        name@,
                        state,
                    ));
                }
            }
            i = i + 1;
        }
        proof {
            assert(old(self)@.subrange(0, old(self)@.len() as int) =~= old(self)@);
            assert(final (self)@ =~= spec_name_set(old(self)@, name@, state));
        }
        if found {
            (String::from_str("OK"), log)
        } else {
            proof {
                assert(("OK"@).len() == 2);
                assert(("invalid GPIO name"@).len() == 17);
            }
            (String::from_str("invalid GPIO name"), log)
        }
    }

    /// Renders the full-registry report: exactly one line per configured
    /// pin, in registry order, each carrying the pin's hardware offset,
    /// its name, and the level text its line read.
    pub fn gpio_report(&self) -> (r: String)
        ensures
            exists|vals: Seq<Seq<char>>|
                vals.len() == self@.len() && (forall|j: int|
                    0 <= j < vals.len() ==> is_level_text(#[trigger] vals[j]) && (self@[j].level
                        is Some ==> vals[j] == level_value_text(self@[j].level->0))) && r@
                    == report_text(self@, vals),
    {
        let mut out = String::new();
        let ghost mut vals: Seq<Seq<char>> = Seq::empty();
        let mut i: usize = 0;
        while i < self.bindings.len()
            invariant
                0 <= i <= self@.len(),
                self@.len() == self.bindings@.len(),
                vals.len() == i,
                forall|j: int|
                    0 <= j < i ==> is_level_text(#[trigger] vals[j]) && (self@[j].level is Some
                        ==> vals[j] == level_value_text(self@[j].level->0)),
                out@ == report_text(self@.subrange(0, i as int), vals),
            decreases self@.len() - i,
        {
            let ghost old_out = out@;
            let ghost old_vals = vals;
            let read = self.bindings[i].line.read_level();
            let value = level_str(&read);
            out.append("pin: ");
            out.append(u32_text(self.bindings[i].offset).as_str());
            out.append(" | name: ");
            out.append(self.bindings[i].name.as_str());
            out.append(" | state: ");
            out.append(value);
            out.append("\n");
            proof {
                vals = vals.push(value@);
                assert(self@[i as int].level == self.bindings@[i as int]@.level);
                assert(self@[i as int].offset == self.bindings@[i as int]@.offset);
                assert(self@[i as int].name == self.bindings@[i as int]@.name);
                let extended = self@.subrange(0, i + 1 as int);
                assert(extended.drop_last() =~= self@.subrange(0, i as int));
                assert(vals.drop_last() =~= old_vals);
                assert(extended.last() == self@[i as int]);
                assert(out@ =~= old_out + report_line_text(
                    self@[i as int].offset,
                    self@[i as int].name,
                    value@,
                ));
                assert(out@ == report_text(extended, vals));
            }
            i = i + 1;
        }
        proof {
            assert(self@.subrange(0, self@.len() as int) =~= self@);
        }
        out
    }
}

/// `last_match` looks only at names, so any write — which never renames
/// a pin — leaves the choice of pin for a read by name unchanged.
proof fn lemma_last_match_same_names(v: Seq<PinView>, w: Seq<PinView>, name: Seq<char>)
    requires
        v.len() == w.len(),
        forall|j: int| 0 <= j < v.len() ==> v[j].name == w[j].name,
    ensures
        last_match(v, name) == last_match(w, name),
    decreases v.len(),
{
    if v.len() > 0 {
        assert(v[v.len() - 1].name == w[v.len() - 1].name);
        if v.last().name != name {
            assert(forall|j: int|
                0 <= j < v.len() - 1 ==> v.drop_last()[j].name == w.drop_last()[j].name);
            lemma_last_match_same_names(v.drop_last(), w.drop_last(), name);
        }
    }
}

/// Law: writing level 1 to a pin and then reading that same pin reports
/// `"1"`, on a line that faithfully remembers writes (a simulated line;
/// hardware is only as faithful as the driver).
pub proof fn lemma_set_then_get_high(v: Seq<PinView>, i: int)
    requires
        0 <= i < v.len(),
        v[i].level is Some,
    ensures
        spec_set(v, i, 1)[i].level == Some(1u8),
        level_value_text(spec_set(v, i, 1)[i].level->0) == "1"@,
{
}

/// Law: writing level 0 to a pin and then reading that same pin reports
/// `"0"`, on a line that faithfully remembers writes.
pub proof fn lemma_set_then_get_low(v: Seq<PinView>, i: int)
    requires
        0 <= i < v.len(),
        v[i].level is Some,
    ensures
        spec_set(v, i, 0)[i].level == Some(0u8),
        level_value_text(spec_set(v, i, 0)[i].level->0) == "0"@,
{
}

/// Law: a write by name drives every pin that bears the name — all
/// aliases act together — and touches no other pin.
pub proof fn lemma_name_set_drives_all_aliases(v: Seq<PinView>, name: Seq<char>, state: u8)
    ensures
        forall|j: int|
            0 <= j < v.len() && v[j].name == name && v[j].level is Some ==> #[trigger] spec_name_set(
                v,
                name,
                state,
            )[j].level == Some(state),
        forall|j: int|
            0 <= j < v.len() && v[j].name != name ==> #[trigger] spec_name_set(v, name, state)[j]
                == v[j],
{
}

/// Law: after a write by name, a read by the same name reports the
/// written level: a write never renames a pin, so the read still settles
/// on the same, last-bound alias, and that alias now remembers the
/// written level.
pub proof fn lemma_name_set_then_name_get(v: Seq<PinView>, name: Seq<char>, state: u8)
    requires
        name_matches(v, name),
        v[last_match(v, name)].level is Some,
    ensures
        name_matches(spec_name_set(v, name, state), name),
        last_match(spec_name_set(v, name, state), name) == last_match(v, name),
        spec_name_set(v, name, state)[last_match(v, name)].level == Some(state),
        level_value_text(state) == level_value_text(
            spec_name_set(v, name, state)[last_match(v, name)].level->0,
        ),
{
    let w = spec_name_set(v, name, state);
    lemma_last_match(v, name);
    assert(forall|j: int| 0 <= j < v.len() ==> v[j].name == w[j].name);
    lemma_last_match_same_names(v, w, name);
    lemma_last_match(w, name);
    assert(w[last_match(v, name)].name == name);
}

/// Law: writes to distinct pins land independently — no update is lost:
/// each write is visible afterwards, and performing the two writes in
/// the other order produces the very same registry contents.
pub proof fn lemma_distinct_writes_independent(v: Seq<PinView>, i: int, j: int, a: u8, b: u8)
    requires
        0 <= i < v.len(),
        0 <= j < v.len(),
        i != j,
    ensures
        spec_set(spec_set(v, i, a), j, b)[i] == pin_written(v[i], a),
        spec_set(spec_set(v, i, a), j, b)[j] == pin_written(v[j], b),
        spec_set(spec_set(v, i, a), j, b) == spec_set(spec_set(v, j, b), i, a),
{
    assert(spec_set(spec_set(v, i, a), j, b) =~= spec_set(spec_set(v, j, b), i, a));
}

} // verus!
