//! The probe's measurement channels: the bus transaction that samples each
//! one, and how the bytes that come back are read as a number.

use vstd::prelude::*;

verus! {

/// The bus address of the probe.
pub const PROBE_ADDR: u16 = 0x36;

/// The register of the temperature channel.
pub const TEMP_ADDR: u8 = 0x00;

/// The number of bytes of a temperature reading.
pub const TEMP_SIZE: usize = 4;

/// The command that starts a temperature conversion.
pub const TEMP_COMMAND: u8 = 0x04;

/// The register of the water-level channel.
pub const WATER_ADDR: u8 = 0x0f;

/// The number of bytes of a water-level reading.
pub const WATER_SIZE: usize = 2;

/// How long a conversion takes, in milliseconds: the time to wait between
/// the command and the read.
pub const SETTLE_MILLIS: u64 = 100;

/// The time between two samples, in seconds.
pub const SAMPLE_PERIOD_SECS: u64 = 10;

/// What the probe measures.
#[derive(Clone, Copy, Debug, PartialEq, Eq, Structural)]
pub enum Channel {
    Temperature,
    WaterLevel,
}

/// One step of a bus transaction.
#[derive(Clone, Copy, Debug, PartialEq, Eq, Structural)]
pub enum BusStep {
    /// Write the one-byte `command` to `register`.
    Write { register: u8, command: u8 },
    /// Wait for `millis` milliseconds, without holding up other work.
    Settle { millis: u64 },
    /// Read `len` bytes from `register`.
    Read { register: u8, len: usize },
}

/// The number that `bytes` spell in base 256, most significant byte first.
pub open spec fn be_unsigned(bytes: Seq<u8>) -> nat
    decreases bytes.len(),
{
    if bytes.len() == 0 {
        0
    } else {
        be_unsigned(bytes.drop_last()) * 256 + bytes.last() as nat
    }
}

/// 256 to the power of `n`.
pub open spec fn pow256(n: nat) -> nat
    decreases n,
{
    if n == 0 {
        1
    } else {
        256 * pow256((n - 1) as nat)
    }
}

/// The number that `bytes` spell as a two's-complement integer of their
/// width, most significant byte first.
pub open spec fn be_signed(bytes: Seq<u8>) -> int {
    if bytes.len() > 0 && bytes[0] >= 128 {
        be_unsigned(bytes) - pow256(bytes.len())
    } else {
        be_unsigned(bytes) as int
    }
}

impl Channel {
    /// The register that the channel is read from.
    pub open spec fn spec_register(self) -> u8 {
        match self {
            Channel::Temperature => TEMP_ADDR,
            Channel::WaterLevel => WATER_ADDR,
        }
    }

    /// The number of bytes of one reading of the channel.
    pub open spec fn spec_width(self) -> usize {
        match self {
            Channel::Temperature => TEMP_SIZE,
            Channel::WaterLevel => WATER_SIZE,
        }
    }

    /// The steps of the transaction that samples the channel. Temperature
    /// has to be converted first: command, settle, read. The water level is
    /// kept up to date by the probe and is read at once.
    pub open spec fn spec_plan(self) -> Seq<BusStep> {
        match self {
            Channel::Temperature => seq![
                BusStep::Write { register: TEMP_ADDR, command: TEMP_COMMAND },
                BusStep::Settle { millis: SETTLE_MILLIS },
                BusStep::Read { register: TEMP_ADDR, len: TEMP_SIZE },
            ],
            Channel::WaterLevel => seq![BusStep::Read { register: WATER_ADDR, len: WATER_SIZE }],
        }
    }

    /// The register that the channel is read from.
    #[verifier::when_used_as_spec(spec_register)]
    pub fn register(self) -> (register: u8)
        ensures
            register == self.spec_register(),
    {
        match self {
            Channel::Temperature => TEMP_ADDR,
            Channel::WaterLevel => WATER_ADDR,
        }
    }

    /// The number of bytes of one reading of the channel.
    #[verifier::when_used_as_spec(spec_width)]
    pub fn width(self) -> (width: usize)
        ensures
            width == self.spec_width(),
    {
        match self {
            Channel::Temperature => TEMP_SIZE,
            Channel::WaterLevel => WATER_SIZE,
        }
    }

    /// The steps of the transaction that samples the channel, in order.
    pub fn plan(self) -> (steps: Vec<BusStep>)
        ensures
            steps@ == self.spec_plan(),
    {
        let mut steps: Vec<BusStep> = Vec::new();
        match self {
            Channel::Temperature => {
                steps.push(BusStep::Write { register: TEMP_ADDR, command: TEMP_COMMAND });
                steps.push(BusStep::Settle { millis: SETTLE_MILLIS });
                steps.push(BusStep::Read { register: TEMP_ADDR, len: TEMP_SIZE });
            },
            Channel::WaterLevel => {
                steps.push(BusStep::Read { register: WATER_ADDR, len: WATER_SIZE });
            },
        }
        assert(steps@ =~= self.spec_plan());
        steps
    }

    /// The raw reading that `block` holds: its bytes as a big-endian signed
    /// integer of the channel's width. None where `block` is not of that
    /// width.
    pub fn decode(self, block: &[u8]) -> (counts: Option<i32>)
        ensures
            counts is Some <==> block@.len() == self.spec_width(),
            counts matches Some(n) ==> n == be_signed(block@),
    {
        if block.len() != self.width() {
            return None;
        }
        let mut value: i64 = 0;
        let mut i: usize = 0;
        assert(block@.take(0) =~= Seq::empty());
        while i < block.len()
            invariant
                i <= block.len() <= 4,
                value == be_unsigned(block@.take(i as int)),
                value < pow256(i as nat),
                pow256(i as nat) <= 0x1_0000_0000,
            decreases block.len() - i,
        {
            proof {
                let longer = block@.take(i as int + 1);
                assert(longer.drop_last() =~= block@.take(i as int));
                assert(longer.last() == block@[i as int]);
                reveal_with_fuel(pow256, 5);
            }
            value = value * 256 + block[i] as i64;
            i += 1;
        }
        proof {
            assert(block@.take(i as int) =~= block@);
            lemma_leading_byte(block@);
            reveal_with_fuel(pow256, 5);
        }
        let half: i64 = if block.len() == 4 {
            0x8000_0000
        } else {
            0x8000
        };
        if value >= half {
            Some((value - 2 * half) as i32)
        } else {
            Some(value as i32)
        }
    }
}

/// The first byte of a block decides in which half of the block's range its
/// number lies.
pub proof fn lemma_leading_byte(bytes: Seq<u8>)
    requires
        bytes.len() > 0,
    ensures
        bytes[0] >= 128 <==> 2 * be_unsigned(bytes) >= pow256(bytes.len()),
        be_unsigned(bytes) < pow256(bytes.len()),
    decreases bytes.len(),
{
    if bytes.len() == 1 {
        assert(bytes.drop_last() =~= Seq::empty());
        reveal_with_fuel(be_unsigned, 2);
        reveal_with_fuel(pow256, 2);
    } else {
        lemma_leading_byte(bytes.drop_last());
        assert(bytes.drop_last()[0] == bytes[0]);
    }
}

} // verus!
