use vstd::prelude::*;
use crate::command::Command;

verus! {

/// Errors of the driver.
#[derive(Debug)]
pub enum Error<SpiError, PinError> {
    /// SPI communication error
    Spi(SpiError),
    /// CS output pin error
    Pin(PinError),
    /// line index should be between 0 and 7
    InvalidLineIndex,
    /// payload length should be num_devices
    InvalidPayloadLength,
}

/// Register code of the no-op register, which the chips accept without effect.
pub const NOOP_REGISTER: u8 = 0x00;

/// `bytes` is the frame in which the `i`-th pair shifted out is `pairs[i]`:
/// register byte first, then data byte.
pub open spec fn is_frame(bytes: Seq<u8>, pairs: Seq<(u8, u8)>) -> bool {
    &&& bytes.len() == 2 * pairs.len()
    &&& forall|i: int|
        0 <= i < pairs.len() ==> bytes[2 * i] == (#[trigger] pairs[i]).0 && bytes[2 * i + 1]
            == pairs[i].1
}

/// The same `(register, data)` pair for each of `n` chips.
pub open spec fn broadcast_pairs(n: nat, register: u8, data: u8) -> Seq<(u8, u8)> {
    Seq::new(n, |i: int| (register, data))
}

/// One row register (`line_index + 1`) with one payload byte per chip, in chip order.
pub open spec fn line_pairs(line_index: u8, payload: Seq<u8>) -> Seq<(u8, u8)>
    recommends
        line_index < 8,
{
    Seq::new(payload.len(), |i: int| ((line_index + 1) as u8, payload[i]))
}

/// Position in a frame at which the pair for chip `device_index` is shifted out:
/// the pair shifted out first travels to the far end of the chain.
pub open spec fn device_slot(n: nat, device_index: nat) -> int {
    n - 1 - device_index
}

/// The target pair for chip `device_index`, and the no-op pair for every other chip.
pub open spec fn device_pairs(n: nat, device_index: nat, register: u8, data: u8) -> Seq<
    (u8, u8),
> {
    Seq::new(
        n,
        |p: int|
            if p == device_slot(n, device_index) {
                (register, data)
            } else {
                (NOOP_REGISTER, 0u8)
            },
    )
}

/// The eight frames that blank every row register of every chip.
pub open spec fn clear_frames_spec(n: nat, frames: Seq<Vec<u8>>) -> bool {
    &&& frames.len() == 8
    &&& forall|r: int| 0 <= r < 8 ==> is_frame(#[trigger] frames[r]@, broadcast_pairs(n, (r + 1) as u8, 0))
}

pub(crate) proof fn lemma_frame_push(bytes: Seq<u8>, pairs: Seq<(u8, u8)>, register: u8, data: u8)
    requires
        is_frame(bytes, pairs),
    ensures
        is_frame(bytes.push(register).push(data), pairs.push((register, data))),
{
    let b2 = bytes.push(register).push(data);
    let p2 = pairs.push((register, data));
    assert forall|i: int| 0 <= i < p2.len() implies b2[2 * i] == (#[trigger] p2[i]).0 && b2[2 * i
        + 1] == p2[i].1 by {
        if i < pairs.len() {
            assert(pairs[i] == p2[i]);
        }
    }
}

pub(crate) fn push_pair(bytes: &mut Vec<u8>, register: u8, data: u8)
    ensures
        final(bytes)@ == old(bytes)@.push(register).push(data),
{
    bytes.push(register);
    bytes.push(data);
}

/// A chain of MAX7219 chips, each driving an 8x8 LED matrix, that share one
/// SPI bus and one chip-select line.
pub struct MAX7219<'a, CS> {
    pub(crate) cs: &'a mut CS,
    pub(crate) num_devices: usize,
}

impl<'a, CS> MAX7219<'a, CS> {
    /// Number of chips in the chain.
    pub open(crate) spec fn devices(&self) -> nat {
        self.num_devices as nat
    }

    pub fn new(cs: &'a mut CS, num_devices: usize) -> (r: Self)
        ensures
            r.devices() == num_devices,
    {
        MAX7219 { cs, num_devices }
    }

    /// Gets the number of devices you passed in when calling new
    pub fn get_num_devices(&mut self) -> (r: usize)
        ensures
            r == old(self).devices(),
            final(self).devices() == old(self).devices(),
    {
        self.num_devices
    }

    /// The chip-select line, for the code that performs the transfers.
    pub fn select_pin(&mut self) -> (r: &mut CS)
        ensures
            final(self).devices() == old(self).devices(),
    {
        self.cs
    }

    /// The frame that sends the same raw `(register, data)` pair to every chip.
    pub fn broadcast_frame(&self, register: u8, data: u8) -> (r: Vec<u8>)
        ensures
            is_frame(r@, broadcast_pairs(self.devices(), register, data)),
    {
        let n = self.num_devices;
        let ghost pairs = broadcast_pairs(n as nat, register, data);
        let mut out: Vec<u8> = Vec::new();
        let mut i: usize = 0;
        while i < n
            invariant
                i <= n,
                n == self.devices(),
                pairs == broadcast_pairs(n as nat, register, data),
                is_frame(out@, pairs.take(i as int)),
            decreases n - i,
        {
            proof {
                lemma_frame_push(out@, pairs.take(i as int), register, data);
                assert(pairs.take(i as int).push((register, data)) =~= pairs.take(i + 1));
            }
            push_pair(&mut out, register, data);
            i += 1;
        }
        assert(pairs.take(n as int) =~= pairs);
        out
    }

    /// The frame that sends `command` with `data` to every chip.
    pub fn command_frame(&self, command: Command, data: u8) -> (r: Vec<u8>)
        ensures
            is_frame(r@, broadcast_pairs(self.devices(), command.spec_code(), data)),
    {
        self.broadcast_frame(command.code(), data)
    }

    /// The eight frames that clear the display: each row register of every chip is set to 0.
    pub fn clear_frames(&self) -> (r: Vec<Vec<u8>>)
        ensures
            clear_frames_spec(self.devices(), r@),
    {
        let mut frames: Vec<Vec<u8>> = Vec::new();
        let mut register: u8 = 1;
        while register < 9
            invariant
                1 <= register <= 9,
                frames@.len() == register - 1,
                forall|r: int|
                    0 <= r < register - 1 ==> is_frame(
                        #[trigger] frames@[r]@,
                        broadcast_pairs(self.devices(), (r + 1) as u8, 0),
                    ),
            decreases 9 - register,
        {
            let frame = self.broadcast_frame(register, 0);
            frames.push(frame);
            register += 1;
        }
        frames
    }

    /// The frame that writes row `line_index` (0 to 7) of every chip, chip `i` receiving
    /// `payload[i]`. Fails, before any frame exists, on a row index over 7 and then on a
    /// payload that does not hold one byte per chip.
    pub fn line_frame<SpiError, PinError>(&self, line_index: u8, payload: &[u8]) -> (r: Result<
        Vec<u8>,
        Error<SpiError, PinError>,
    >)
        ensures
            match r {
                Ok(frame) => {
                    &&& line_index < 8
                    &&& payload@.len() == self.devices()
                    &&& is_frame(frame@, line_pairs(line_index, payload@))
                },
                Err(e) => {
                    ||| line_index >= 8 && e is InvalidLineIndex
                    ||| line_index < 8 && payload@.len() != self.devices()
                        && e is InvalidPayloadLength
                },
            },
    {
        if line_index >= 8 {
            return Err(Error::InvalidLineIndex);
        }
        if payload.len() != self.num_devices {
            return Err(Error::InvalidPayloadLength);
        }
        let register = line_index + 1;
        let ghost pairs = line_pairs(line_index, payload@);
        let mut out: Vec<u8> = Vec::new();
        let mut i: usize = 0;
        while i < payload.len()
            invariant
                i <= payload@.len(),
                register == line_index + 1,
                line_index < 8,
                pairs == line_pairs(line_index, payload@),
                is_frame(out@, pairs.take(i as int)),
            decreases payload@.len() - i,
        {
            let data = payload[i];
            proof {
                assert(pairs[i as int] == (register, data));
                lemma_frame_push(out@, pairs.take(i as int), register, data);
                assert(pairs.take(i as int).push((register, data)) =~= pairs.take(i + 1));
            }
            push_pair(&mut out, register, data);
            i += 1;
        }
        assert(pairs.take(payload@.len() as int) =~= pairs);
        Ok(out)
    }

    /// The frame that writes `(register, data)` to chip `device_index` alone, where chip 0
    /// is the first chip of the chain: every other chip receives the no-op pair.
    pub fn device_frame(&self, device_index: usize, register: u8, data: u8) -> (r: Vec<u8>)
        requires
            device_index < self.devices(),
        ensures
            r@.len() == 2 * self.devices(),
            is_frame(r@, device_pairs(self.devices(), device_index as nat, register, data)),
    {
        let n = self.num_devices;
        let ghost pairs = device_pairs(n as nat, device_index as nat, register, data);
        let mut out: Vec<u8> = Vec::new();
        // pad the chips after the target first: their pairs travel furthest
        let mut i: usize = device_index;
        while i < n - 1
            invariant
                device_index <= i <= n - 1,
                n == self.devices(),
                pairs == device_pairs(n as nat, device_index as nat, register, data),
                is_frame(out@, pairs.take(i - device_index)),
            decreases n - 1 - i,
        {
            proof {
                let k = i - device_index;
                assert(pairs[k] == (NOOP_REGISTER, 0u8));
                lemma_frame_push(out@, pairs.take(k), NOOP_REGISTER, 0);
                assert(pairs.take(k).push((NOOP_REGISTER, 0u8)) =~= pairs.take(k + 1));
            }
            push_pair(&mut out, NOOP_REGISTER, 0);
            i += 1;
        }
        let ghost k = n - 1 - device_index;
        proof {
            assert(pairs[k] == (register, data));
            lemma_frame_push(out@, pairs.take(k), register, data);
            assert(pairs.take(k).push((register, data)) =~= pairs.take(k + 1));
        }
        push_pair(&mut out, register, data);
        // then the chips before it
        let mut j: usize = 0;
        while j < device_index
            invariant
                j <= device_index < n,
                n == self.devices(),
                k == n - 1 - device_index,
                pairs == device_pairs(n as nat, device_index as nat, register, data),
                is_frame(out@, pairs.take(k + 1 + j)),
            decreases device_index - j,
        {
            proof {
                let m = k + 1 + j;
                assert(pairs[m] == (NOOP_REGISTER, 0u8));
                lemma_frame_push(out@, pairs.take(m), NOOP_REGISTER, 0);
                assert(pairs.take(m).push((NOOP_REGISTER, 0u8)) =~= pairs.take(m + 1));
            }
            push_pair(&mut out, NOOP_REGISTER, 0);
            j += 1;
        }
        assert(pairs.take(n as int) =~= pairs);
        out
    }
}

} // verus!
