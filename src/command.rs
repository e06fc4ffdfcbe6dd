use vstd::prelude::*;

verus! {

/// The registers of the chip, as far as this driver names them.
#[derive(Clone, Copy, Debug)]
pub enum Command {
    Noop,
    Digit0,
    Digit1,
    Digit2,
    Digit3,
    Digit4,
    Digit5,
    Digit6,
    Digit7,
    DecodeMode,
    /// Intensity of the light 0-15
    Intensity,
    ScanLimit,
    OnOff,
    DisplayTest,
}

impl Command {
    /// The register code that the chip expects on the wire for this command.
    pub open spec fn spec_code(self) -> u8 {
        match self {
            Command::Noop => 0x00,
            Command::Digit0 => 0x01,
            Command::Digit1 => 0x02,
            Command::Digit2 => 0x03,
            Command::Digit3 => 0x04,
            Command::Digit4 => 0x05,
            Command::Digit5 => 0x06,
            Command::Digit6 => 0x07,
            Command::Digit7 => 0x08,
            Command::DecodeMode => 0x09,
            Command::Intensity => 0x0A,
            Command::ScanLimit => 0x0B,
            Command::OnOff => 0x0C,
            Command::DisplayTest => 0x0F,
        }
    }

    /// Register code of this command.
    pub fn code(&self) -> (r: u8)
        ensures
            r == self.spec_code(),
    {
        match self {
            Command::Noop => 0x00,
            Command::Digit0 => 0x01,
            Command::Digit1 => 0x02,
            Command::Digit2 => 0x03,
            Command::Digit3 => 0x04,
            Command::Digit4 => 0x05,
            Command::Digit5 => 0x06,
            Command::Digit6 => 0x07,
            Command::Digit7 => 0x08,
            Command::DecodeMode => 0x09,
            Command::Intensity => 0x0A,
            Command::ScanLimit => 0x0B,
            Command::OnOff => 0x0C,
            Command::DisplayTest => 0x0F,
        }
    }
}

} // verus!
