use vstd::prelude::*;
use rand::Rng;
use rand::XorShiftRng;
use crate::address::IpAddress;
use crate::coord::PEN_UP_BITS;

verus! {

#[verifier::external_type_specification]
#[verifier::external_body]
pub struct ExXorShiftRng(XorShiftRng);

/// `rand::weak_rng`: a fast generator seeded from the thread generator.
/// Nothing is promised of its state.
#[verifier::external_body]
fn weak_rng() -> (r: XorShiftRng) {
    rand::weak_rng()
}

/// `Rng::gen_range(low, high)` on `u8`: a value drawn from `low..high`.
/// The crate panics unless `low < high`; which value comes out is chance.
#[verifier::external_body]
fn gen_range_u8(rng: &mut XorShiftRng, low: u8, high: u8) -> (v: u8)
    requires
        low < high,
    ensures
        low <= v < high,
{
    rng.gen_range(low, high)
}

/// Colours are drawn from `0..COLOR_COUNT`.
pub const COLOR_COUNT: u8 = 100u8;

/// A connected client: its connection, where its pen was last (bit
/// patterns of doubles), its colour and its address.
#[derive(Clone, Copy, Debug, PartialEq, Eq, Structural)]
pub struct Client {
    pub connection_id: u32,
    pub oldx: u64,
    pub oldy: u64,
    pub color: u8,
    pub ip: IpAddress,
}

impl Client {
    /// A client with the pen lifted (at `(-1, -1)`) and a colour drawn at
    /// random below `COLOR_COUNT`.
    pub fn new(connection_id: u32, ip: IpAddress) -> (c: Client)
        ensures
            c.connection_id == connection_id,
            c.ip == ip,
            c.oldx == PEN_UP_BITS,
            c.oldy == PEN_UP_BITS,
            c.color < COLOR_COUNT,
    {
        let mut rng = weak_rng();
        let color: u8 = gen_range_u8(&mut rng, 0, COLOR_COUNT);
        Client::with_color(connection_id, ip, color)
    }

    /// A client with the pen lifted (at `(-1, -1)`) and the given colour.
    pub fn with_color(connection_id: u32, ip: IpAddress, color: u8) -> (c: Client)
        ensures
            c == (Client { connection_id, oldx: PEN_UP_BITS, oldy: PEN_UP_BITS, color, ip }),
    {
        Client { connection_id, oldx: PEN_UP_BITS, oldy: PEN_UP_BITS, color, ip }
    }
}

} // verus!
