use vstd::prelude::*;

verus! {

/// Whether `name` reads `word`.
fn reads(name: &String, word: &str) -> (r: bool)
    ensures
        r == (name@ == word@),
{
    *name == word.to_owned()
}

/// The Baud rate of the serial line.
#[derive(PartialEq, Eq, Structural, Clone, Copy, Debug)]
pub enum BaudRate {
    Baud110,
    Baud300,
    Baud600,
    Baud1200,
    Baud2400,
    Baud4800,
    Baud9600,
    Baud19200,
    Baud38400,
    Baud57600,
    Baud115200,
}

/// The `BaudRate` setting that a command-line word names, if any.
pub open spec fn baud_rate_named(name: Seq<char>) -> Option<BaudRate> {
    if name == "110"@ {
        Some(BaudRate::Baud110)
    } else if name == "300"@ {
        Some(BaudRate::Baud300)
    } else if name == "600"@ {
        Some(BaudRate::Baud600)
    } else if name == "1200"@ {
        Some(BaudRate::Baud1200)
    } else if name == "2400"@ {
        Some(BaudRate::Baud2400)
    } else if name == "4800"@ {
        Some(BaudRate::Baud4800)
    } else if name == "9600"@ {
        Some(BaudRate::Baud9600)
    } else if name == "19200"@ {
        Some(BaudRate::Baud19200)
    } else if name == "38400"@ {
        Some(BaudRate::Baud38400)
    } else if name == "57600"@ {
        Some(BaudRate::Baud57600)
    } else if name == "115200"@ {
        Some(BaudRate::Baud115200)
    } else {
        None
    }
}

/// Reads a `BaudRate` setting from its command-line word; the word itself is
/// the error where it names none.
pub fn get_baud_rate(name: String) -> (r: Result<BaudRate, String>)
    ensures
        match baud_rate_named(name@) {
            Some(v) => r == Ok::<BaudRate, String>(v),
            None => r matches Err(e) && e@ == name@,
        },
{
    if reads(&name, "110") {
        Ok(BaudRate::Baud110)
    } else if reads(&name, "300") {
        Ok(BaudRate::Baud300)
    } else if reads(&name, "600") {
        Ok(BaudRate::Baud600)
    } else if reads(&name, "1200") {
        Ok(BaudRate::Baud1200)
    } else if reads(&name, "2400") {
        Ok(BaudRate::Baud2400)
    } else if reads(&name, "4800") {
        Ok(BaudRate::Baud4800)
    } else if reads(&name, "9600") {
        Ok(BaudRate::Baud9600)
    } else if reads(&name, "19200") {
        Ok(BaudRate::Baud19200)
    } else if reads(&name, "38400") {
        Ok(BaudRate::Baud38400)
    } else if reads(&name, "57600") {
        Ok(BaudRate::Baud57600)
    } else if reads(&name, "115200") {
        Ok(BaudRate::Baud115200)
    } else {
        Err(name)
    }
}

/// The number of bits per character.
#[derive(PartialEq, Eq, Structural, Clone, Copy, Debug)]
pub enum CharSize {
    Bits5,
    Bits6,
    Bits7,
    Bits8,
}

/// The `CharSize` setting that a command-line word names, if any.
pub open spec fn char_size_named(name: Seq<char>) -> Option<CharSize> {
    if name == "5"@ {
        Some(CharSize::Bits5)
    } else if name == "6"@ {
        Some(CharSize::Bits6)
    } else if name == "7"@ {
        Some(CharSize::Bits7)
    } else if name == "8"@ {
        Some(CharSize::Bits8)
    } else {
        None
    }
}

/// Reads a `CharSize` setting from its command-line word; the word itself is
/// the error where it names none.
pub fn get_char_size(name: String) -> (r: Result<CharSize, String>)
    ensures
        match char_size_named(name@) {
            Some(v) => r == Ok::<CharSize, String>(v),
            None => r matches Err(e) && e@ == name@,
        },
{
    if reads(&name, "5") {
        Ok(CharSize::Bits5)
    } else if reads(&name, "6") {
        Ok(CharSize::Bits6)
    } else if reads(&name, "7") {
        Ok(CharSize::Bits7)
    } else if reads(&name, "8") {
        Ok(CharSize::Bits8)
    } else {
        Err(name)
    }
}

/// The parity checking mode.
#[derive(PartialEq, Eq, Structural, Clone, Copy, Debug)]
pub enum Parity {
    ParityEven,
    ParityNone,
    ParityOdd,
}

/// The `Parity` setting that a command-line word names, if any.
pub open spec fn parity_named(name: Seq<char>) -> Option<Parity> {
    if name == "even"@ {
        Some(Parity::ParityEven)
    } else if name == "none"@ {
        Some(Parity::ParityNone)
    } else if name == "odd"@ {
        Some(Parity::ParityOdd)
    } else {
        None
    }
}

/// Reads a `Parity` setting from its command-line word; the word itself is
/// the error where it names none.
pub fn get_parity(name: String) -> (r: Result<Parity, String>)
    ensures
        match parity_named(name@) {
            Some(v) => r == Ok::<Parity, String>(v),
            None => r matches Err(e) && e@ == name@,
        },
{
    if reads(&name, "even") {
        Ok(Parity::ParityEven)
    } else if reads(&name, "none") {
        Ok(Parity::ParityNone)
    } else if reads(&name, "odd") {
        Ok(Parity::ParityOdd)
    } else {
        Err(name)
    }
}

/// The number of stop bits sent after every character.
#[derive(PartialEq, Eq, Structural, Clone, Copy, Debug)]
pub enum StopBits {
    Stop1,
    Stop2,
}

/// The `StopBits` setting that a command-line word names, if any.
pub open spec fn stop_bits_named(name: Seq<char>) -> Option<StopBits> {
    if name == "1"@ {
        Some(StopBits::Stop1)
    } else if name == "2"@ {
        Some(StopBits::Stop2)
    } else {
        None
    }
}

/// Reads a `StopBits` setting from its command-line word; the word itself is
/// the error where it names none.
pub fn get_stop_bits(name: String) -> (r: Result<StopBits, String>)
    ensures
        match stop_bits_named(name@) {
            Some(v) => r == Ok::<StopBits, String>(v),
            None => r matches Err(e) && e@ == name@,
        },
{
    if reads(&name, "1") {
        Ok(StopBits::Stop1)
    } else if reads(&name, "2") {
        Ok(StopBits::Stop2)
    } else {
        Err(name)
    }
}

/// The flow control mode of the serial line.
#[derive(PartialEq, Eq, Structural, Clone, Copy, Debug)]
pub enum FlowControl {
    FlowHardware,
    FlowNone,
    FlowSoftware,
}

/// The `FlowControl` setting that a command-line word names, if any.
pub open spec fn flow_control_named(name: Seq<char>) -> Option<FlowControl> {
    if name == "hardware"@ {
        Some(FlowControl::FlowHardware)
    } else if name == "none"@ {
        Some(FlowControl::FlowNone)
    } else if name == "software"@ {
        Some(FlowControl::FlowSoftware)
    } else {
        None
    }
}

/// Reads a `FlowControl` setting from its command-line word; the word itself is
/// the error where it names none.
pub fn get_flow_control(name: String) -> (r: Result<FlowControl, String>)
    ensures
        match flow_control_named(name@) {
            Some(v) => r == Ok::<FlowControl, String>(v),
            None => r matches Err(e) && e@ == name@,
        },
{
    if reads(&name, "hardware") {
        Ok(FlowControl::FlowHardware)
    } else if reads(&name, "none") {
        Ok(FlowControl::FlowNone)
    } else if reads(&name, "software") {
        Ok(FlowControl::FlowSoftware)
    } else {
        Err(name)
    }
}

} // verus!
