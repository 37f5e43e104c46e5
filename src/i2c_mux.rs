//! The shared serial bus and the eight-channel multiplexer in front of it.
use vstd::prelude::*;

verus! {

/// One bus transaction: a device address and the bytes written to it.
pub type BusWrite = (u8, Seq<u8>);

/// The one capability the drivers need from a serial bus: write bytes to a
/// device address, or fail with the bus's own error.
pub trait I2cBus {
    type Error;

    fn write(&mut self, address: u8, bytes: &[u8]) -> Result<(), Self::Error>;
}

/// Number of downstream channels of the multiplexer.
pub const MUX_CHANNELS: u8 = 8;

/// The write that selects `channel`: one byte with bit `channel` set.
pub open spec fn select_write(mux_address: u8, channel: u8) -> BusWrite {
    (mux_address, seq![1u8 << channel])
}

/// A write issued on the bus and whether the bus reported success.
pub type BusAttempt = (BusWrite, bool);

/// The writes, each having succeeded.
pub open spec fn all_succeeded(writes: Seq<BusWrite>) -> Seq<BusAttempt> {
    Seq::new(writes.len(), |i: int| (writes[i], true))
}

/// A run of writes that stops at the first failure: on success every write
/// in `writes` was issued and succeeded; on failure the writes before some
/// write `k` succeeded, write `k` failed, and nothing after it was issued.
pub open spec fn issued(before: Seq<BusAttempt>, after: Seq<BusAttempt>, writes: Seq<BusWrite>, ok: bool) -> bool {
    if ok {
        after == before + all_succeeded(writes)
    } else {
        exists|k: int|
            0 <= k < writes.len() && after == before + all_succeeded(#[trigger] writes.take(k)).push((writes[k], false))
    }
}

/// A first run of writes that succeeded, followed by a second run, is the
/// two runs together, succeeding or failing as the second did.
pub proof fn lemma_issued_then(
    l0: Seq<BusAttempt>,
    l1: Seq<BusAttempt>,
    l2: Seq<BusAttempt>,
    w1: Seq<BusWrite>,
    w2: Seq<BusWrite>,
    ok2: bool,
)
    requires
        issued(l0, l1, w1, true),
        issued(l1, l2, w2, ok2),
    ensures
        issued(l0, l2, w1 + w2, ok2),
{
    if ok2 {
        assert(all_succeeded(w1 + w2) =~= all_succeeded(w1) + all_succeeded(w2));
        assert(l2 =~= l0 + all_succeeded(w1 + w2));
    } else {
        let k = choose|k: int| 0 <= k < w2.len() && l2 == l1 + all_succeeded(#[trigger] w2.take(k)).push((w2[k], false));
        let k2 = w1.len() + k;
        assert((w1 + w2).take(k2) =~= w1 + w2.take(k));
        assert(all_succeeded((w1 + w2).take(k2)) =~= all_succeeded(w1) + all_succeeded(w2.take(k)));
        assert((w1 + w2)[k2] == w2[k]);
        assert(l2 =~= l0 + all_succeeded((w1 + w2).take(k2)).push(((w1 + w2)[k2], false)));
    }
}

/// A failure partway through a run of writes is a failure partway through
/// any longer run that begins with it.
pub proof fn lemma_issued_stop(l0: Seq<BusAttempt>, l1: Seq<BusAttempt>, w1: Seq<BusWrite>, w2: Seq<BusWrite>)
    requires
        issued(l0, l1, w1, false),
        w1.len() <= w2.len(),
        w2.take(w1.len() as int) == w1,
    ensures
        issued(l0, l1, w2, false),
{
    let k = choose|k: int| 0 <= k < w1.len() && l1 == l0 + all_succeeded(#[trigger] w1.take(k)).push((w1[k], false));
    assert(w2.take(k) =~= w1.take(k));
    assert(w2[k] == w2.take(w1.len() as int)[k]);
}

/// TCA9548A-style multiplexer: owns the bus, and switches which downstream
/// device it reaches by writing a one-hot channel byte to its own address.
pub struct TCA9548A<I> {
    i2c: I,
    address: u8,
    current_channel: u8,
    log: Ghost<Seq<BusAttempt>>,
}

impl<I> TCA9548A<I> {
    /// The bus it owns.
    pub closed spec fn bus(&self) -> I {
        self.i2c
    }

    /// The multiplexer's own bus address.
    pub closed spec fn mux_address(&self) -> u8 {
        self.address
    }

    /// The channel most recently selected with success.
    pub closed spec fn channel(&self) -> u8 {
        self.current_channel
    }

    /// Every write issued through this multiplexer, oldest first, with
    /// whether it succeeded.
    pub closed spec fn writes(&self) -> Seq<BusAttempt> {
        self.log@
    }

    /// A multiplexer at `address` on the given bus, at channel 0.
    pub fn new(i2c: I, address: u8) -> (r: Self)
        ensures
            r.bus() == i2c,
            r.mux_address() == address,
            r.channel() == 0,
            r.writes() == Seq::<BusAttempt>::empty(),
    {
        TCA9548A { i2c, address, current_channel: 0, log: Ghost(Seq::empty()) }
    }

    /// Get mutable reference to the I2C bus
    pub fn i2c_mut(&mut self) -> (r: &mut I)
        ensures
            *r == old(self).bus(),
            final(self).bus() == *final(r),
            final(self).mux_address() == old(self).mux_address(),
            final(self).channel() == old(self).channel(),
            final(self).writes() == old(self).writes(),
    {
        &mut self.i2c
    }
}

impl<I: I2cBus> TCA9548A<I> {
    /// Selects channel 0 to 7 by writing a byte with that bit set. Any other
    /// channel is ignored and reported as success, so an addressing slip
    /// cannot halt the appliance.
    pub fn select_channel(&mut self, channel: u8) -> (r: Result<(), I::Error>)
        ensures
            channel >= MUX_CHANNELS ==> r is Ok && *final(self) == *old(self),
            channel < MUX_CHANNELS ==> {
                &&& issued(old(self).writes(), final(self).writes(), seq![select_write(old(self).mux_address(), channel)], r is Ok)
                &&& final(self).channel() == if r is Ok { channel } else { old(self).channel() }
                &&& final(self).mux_address() == old(self).mux_address()
            },
    {
        if channel >= MUX_CHANNELS {
            return Ok(());
        }
        let channel_value: u8 = 1u8 << channel;
        let buf = [channel_value];
        let result = self.write_to(self.address, &buf);
        proof {
            let w = seq![select_write(old(self).mux_address(), channel)];
            assert(buf@ =~= seq![channel_value]);
            if result is Ok {
                assert(self.log@ =~= old(self).log@ + all_succeeded(w));
            } else {
                assert(w.take(0) =~= Seq::<BusWrite>::empty());
                assert(self.log@ =~= old(self).log@ + all_succeeded(w.take(0)).push((w[0], false)));
            }
        }
        if result.is_ok() {
            self.current_channel = channel;
        }
        result
    }

    /// Writes bytes to a device behind the multiplexer, on whichever channel
    /// is selected.
    pub fn write_to(&mut self, address: u8, bytes: &[u8]) -> (r: Result<(), I::Error>)
        ensures
            final(self).writes() == old(self).writes().push(((address, bytes@), r is Ok)),
            final(self).mux_address() == old(self).mux_address(),
            final(self).channel() == old(self).channel(),
    {
        let r = self.i2c.write(address, bytes);
        self.log = Ghost(self.log@.push(((address, bytes@), r is Ok)));
        r
    }
}

} // verus!
